//! What holds of the name-keyed symbol table across its operations.
use vstd::prelude::*;
use crate::common::qualified;
use crate::ts2::entries::{entries_inserted, entries_of, entry_named, keys_unique, lemma_inserted, lemma_key_index, key_index, same_keys};
use crate::ts::import::Import;
use crate::ts2::symbols::{
    entry_added, first_table, import_for, imported_target, lookup_entry, pending_name, resolved_as, resolved_entries,
    resolved_with, scope_names, scope_popped, scope_pushed, Scope, SymbolTable, Symbol, TableEntry,
};
use crate::paths::import_names_file;

verus! {

broadcast use vstd::seq_lib::group_seq_properties;

/// Whether scope `id` is `start` or one of the scopes around it.
pub open spec fn in_chain(scopes: Seq<Scope>, start: int, id: int) -> bool
    decreases start,
{
    if start == id {
        true
    } else if 0 <= start < scopes.len() {
        match scopes[start].parent_at {
            Some(p) => if 0 <= p < start {
                in_chain(scopes, p as int, id)
            } else {
                false
            },
            None => false,
        }
    } else {
        false
    }
}

proof fn lemma_lookup_after_insert(
    s0: Seq<Scope>,
    s1: Seq<Scope>,
    c: int,
    key: Seq<char>,
    e: TableEntry,
    name: Seq<char>,
    scope: int,
)
    requires
        0 <= c < s0.len(),
        s0.len() == s1.len(),
        keys_unique(entries_of(s0[c].entries)),
        forall|i: int| 0 <= i < s0.len() && i != c ==> #[trigger] s1[i] == s0[i],
        s1[c].parent_at == s0[c].parent_at,
        entries_of(s1[c].entries) == entries_inserted(entries_of(s0[c].entries), key, e),
    ensures
        name != key || !in_chain(s0, scope, c) ==> lookup_entry(s1, name, scope) == lookup_entry(s0, name, scope),
    decreases scope,
{
    lemma_inserted(entries_of(s0[c].entries), key, e);
    if 0 <= scope < s0.len() {
        match s0[scope].parent_at {
            Some(p) => {
                if 0 <= p < scope {
                    lemma_lookup_after_insert(s0, s1, c, key, e, name, p as int);
                }
            },
            None => {},
        }
    }
}

/// After a symbol is added under `key` in the current scope, a lookup of
/// `key` from that scope finds it, with the fully qualified name the
/// scope gives the key; a lookup of any other name, or from a scope that
/// the current scope does not enclose, finds what it found before.
pub proof fn law_lookup_after_add_symbol(
    t0: SymbolTable,
    t1: SymbolTable,
    key: Seq<char>,
    symbol: Symbol,
    name: Seq<char>,
    scope: int,
)
    requires
        t0.wf(),
        t1.scopes@.len() == t0.scopes@.len(),
        forall|s: int| 0 <= s < t0.scopes@.len() && s != t0.current ==> #[trigger] t1.scopes@[s]
            == t0.scopes@[s],
        t1.scopes@[t0.current as int].parent_at == t0.scopes@[t0.current as int].parent_at,
        entry_added(
            entries_of(t0.scopes@[t0.current as int].entries),
            entries_of(t1.scopes@[t0.current as int].entries),
            key,
            symbol,
            t0.fqn_for(key),
        ),
    ensures
        lookup_entry(t1.scopes@, key, t0.current as int) matches Some(found) && found.symbol
            == symbol && found.fqn@ == t0.fqn_for(key),
        name != key || !in_chain(t0.scopes@, scope, t0.current as int) ==> lookup_entry(
            t1.scopes@,
            name,
            scope,
        ) == lookup_entry(t0.scopes@, name, scope),
{
    let c = t0.current as int;
    let before = entries_of(t0.scopes@[c].entries);
    let e = choose|e: TableEntry| e.symbol == symbol && e.fqn@ == t0.fqn_for(key)
        && entries_of(t1.scopes@[c].entries) == entries_inserted(before, key, e);
    lemma_inserted(before, key, e);
    lemma_lookup_after_insert(t0.scopes@, t1.scopes@, c, key, e, name, scope);
}

/// Leaving a scope just entered makes the scope that was current before
/// current again, and keeps the new scope in the table.
pub proof fn law_pop_scope_undoes_push_scope(
    t0: SymbolTable,
    t1: SymbolTable,
    t2: SymbolTable,
    name: Seq<char>,
    pushed: usize,
    popped: usize,
)
    requires
        t0.wf(),
        scope_pushed(t0, t1, name, pushed),
        scope_popped(t1, t2, popped),
    ensures
        popped == pushed,
        t2.current == t0.current,
        t2.scopes == t1.scopes,
        t2.scopes@.drop_last() == t0.scopes@,
        t2.file == t0.file,
{
    assert(t1.scopes@[t1.current as int] == t1.scopes@.last());
}

proof fn lemma_scope_names_prefix(s0: Seq<Scope>, s1: Seq<Scope>, id: int)
    requires
        s1.len() >= s0.len(),
        forall|i: int| 0 <= i < s0.len() ==> s1[i] == s0[i],
    ensures
        0 <= id < s0.len() ==> scope_names(s1, id) == scope_names(s0, id),
    decreases id,
{
    if 0 <= id < s0.len() {
        match s0[id].parent_at {
            Some(p) => {
                if 0 <= p < id {
                    lemma_scope_names_prefix(s0, s1, p as int);
                }
            },
            None => {},
        }
    }
}

/// The fully qualified name of a symbol declared just after entering a
/// scope named `name` is the one it would have had before, with `name`
/// inserted after the names of the scopes around it.
pub proof fn law_fqn_inside_pushed_scope(
    t0: SymbolTable,
    t1: SymbolTable,
    name: Seq<char>,
    id: usize,
    ident: Seq<char>,
)
    requires
        t0.wf(),
        scope_pushed(t0, t1, name, id),
    ensures
        t1.fqn_for(ident) == t0.file@ + qualified(
            scope_names(t0.scopes@, t0.current as int).push(name).push(ident),
        ),
{
    let s0 = t0.scopes@;
    let s1 = t1.scopes@;
    assert forall|i: int| 0 <= i < s0.len() implies s1[i] == s0[i] by {
        assert(s1.drop_last()[i] == s1[i]);
    }
    lemma_scope_names_prefix(s0, s1, t0.current as int);
    let last = s1[t1.current as int];
    assert(last == s1.last());
    assert(scope_names(s1, t1.current as int) == scope_names(s1, t0.current as int).push(name));
}

/// Type resolution keeps the names, the order and the fully qualified
/// names of every scope's entries, and the symbols' sources.
pub proof fn law_resolution_keeps_entries(
    t0: SymbolTable,
    t1: SymbolTable,
    targets: spec_fn(int) -> Seq<Option<String>>,
    s: int,
)
    requires
        resolved_as(t0, t1, targets),
        0 <= s < t0.scopes@.len(),
    ensures
        same_keys(entries_of(t0.scopes@[s].entries), entries_of(t1.scopes@[s].entries)),
        forall|i: int| 0 <= i < entries_of(t0.scopes@[s].entries).len() ==> {
            &&& (#[trigger] entries_of(t1.scopes@[s].entries)[i]).1.fqn == entries_of(t0.scopes@[s].entries)[i].1.fqn
            &&& entries_of(t1.scopes@[s].entries)[i].1.symbol.source == entries_of(t0.scopes@[s].entries)[i].1.symbol.source
        },
{
    let before = entries_of(t0.scopes@[s].entries);
    let after = entries_of(t1.scopes@[s].entries);
    assert(after == resolved_entries(before, targets(s)));
    assert forall|i: int| 0 <= i < before.len() implies (#[trigger] after[i]).1.fqn == before[i].1.fqn
        && after[i].1.symbol.source == before[i].1.symbol.source by {
        assert(after[i].1 == resolved_with(before[i].1, targets(s)[i]));
    }
}


/// A call made on a name-keyed symbol table.
pub enum TableCall {
    PushScope,
    PopScope,
    AddSymbol(String, Symbol),
    AddImport(Import),
}

/// Whether `t1` is what the call `c` leaves of `t0`, as the call's own
/// contract states it.
pub open spec fn call_made(t0: SymbolTable, t1: SymbolTable, c: TableCall) -> bool {
    let cur = t0.current as int;
    &&& t0.wf()
    &&& match c {
        TableCall::PushScope => exists|name: Seq<char>, id: usize| #[trigger] scope_pushed(t0, t1, name, id),
        TableCall::PopScope => exists|id: usize| #[trigger] scope_popped(t0, t1, id),
        TableCall::AddSymbol(key, s) => {
            &&& t1.wf()
            &&& t1.file == t0.file
            &&& t1.current == t0.current
            &&& t1.scopes@.len() == t0.scopes@.len()
            &&& forall|j: int| 0 <= j < t0.scopes@.len() && j != cur ==> #[trigger] t1.scopes@[j] == t0.scopes@[j]
            &&& entry_added(entries_of(t0.scopes@[cur].entries), entries_of(t1.scopes@[cur].entries), key@, s, t0.fqn_for(key@))
        },
        TableCall::AddImport(i) => {
            &&& t1.wf()
            &&& t1.file == t0.file
            &&& t1.current == t0.current
            &&& t1.scopes@.len() == t0.scopes@.len()
            &&& forall|j: int| 0 <= j < t0.scopes@.len() && j != cur ==> #[trigger] t1.scopes@[j] == t0.scopes@[j]
            &&& t1.scopes@[cur].entries == t0.scopes@[cur].entries
        },
    }
}

/// Whether `ts` are the tables a table goes through under the calls
/// `calls`, the first as `new` makes it.
pub open spec fn history(ts: Seq<SymbolTable>, calls: Seq<TableCall>) -> bool {
    &&& ts.len() == calls.len() + 1
    &&& ts[0].wf()
    &&& ts[0].scopes@.len() == 1
    &&& entries_of(ts[0].scopes@[0].entries).len() == 0
    &&& forall|k: int| 0 <= k < calls.len() ==> call_made(#[trigger] ts[k], ts[k + 1], calls[k])
}

/// The names added to scope `id` by the first `k` calls, each once, in the
/// order first added.
pub open spec fn keys_into(ts: Seq<SymbolTable>, calls: Seq<TableCall>, id: int, k: int) -> Seq<Seq<char>>
    decreases k,
{
    if k <= 0 {
        Seq::empty()
    } else {
        let before = keys_into(ts, calls, id, k - 1);
        match calls[k - 1] {
            TableCall::AddSymbol(key, _) => if ts[k - 1].current == id && !before.contains(key@) {
                before.push(key@)
            } else {
                before
            },
            _ => before,
        }
    }
}

/// The symbol added last under `name` to scope `id` by the first `k`
/// calls.
pub open spec fn latest_into(ts: Seq<SymbolTable>, calls: Seq<TableCall>, id: int, name: Seq<char>, k: int) -> Option<Symbol>
    decreases k,
{
    if k <= 0 {
        None
    } else {
        match calls[k - 1] {
            TableCall::AddSymbol(key, s) => if ts[k - 1].current == id && key@ == name {
                Some(s)
            } else {
                latest_into(ts, calls, id, name, k - 1)
            },
            _ => latest_into(ts, calls, id, name, k - 1),
        }
    }
}

/// The names of `entries`, in order.
pub open spec fn names_of(entries: Seq<(Seq<char>, TableEntry)>) -> Seq<Seq<char>> {
    entries.map_values(|p: (Seq<char>, TableEntry)| p.0)
}

/// What holds of the entries of scope `id` after the first `k` calls.
pub open spec fn scope_entries_facts(ts: Seq<SymbolTable>, calls: Seq<TableCall>, id: int, k: int) -> bool {
    let es = entries_of(ts[k].scopes@[id].entries);
    &&& keys_unique(es)
    &&& names_of(es) == keys_into(ts, calls, id, k)
    &&& forall|name: Seq<char>| match latest_into(ts, calls, id, name, k) {
        Some(s) => #[trigger] entry_named(es, name) matches Some(e) && e.symbol == s,
        None => entry_named(es, name) is None,
    }
}

pub open spec fn entries_facts(ts: Seq<SymbolTable>, calls: Seq<TableCall>, k: int) -> bool {
    &&& ts[k].wf()
    &&& forall|id: int| 0 <= id < ts[k].scopes@.len() ==> #[trigger] scope_entries_facts(ts, calls, id, k)
}

proof fn lemma_entries_unchanged(ts: Seq<SymbolTable>, calls: Seq<TableCall>, id: int, k: int)
    requires
        0 <= k < calls.len(),
        0 <= id < ts[k].scopes@.len(),
        0 <= id < ts[k + 1].scopes@.len(),
        scope_entries_facts(ts, calls, id, k),
        ts[k + 1].scopes@[id].entries == ts[k].scopes@[id].entries,
        keys_into(ts, calls, id, k + 1) == keys_into(ts, calls, id, k),
        forall|name: Seq<char>| #[trigger] latest_into(ts, calls, id, name, k + 1) == latest_into(ts, calls, id, name, k),
    ensures
        scope_entries_facts(ts, calls, id, k + 1),
{
    let es = entries_of(ts[k].scopes@[id].entries);
    assert forall|name: Seq<char>| match latest_into(ts, calls, id, name, k + 1) {
        Some(s) => #[trigger] entry_named(es, name) matches Some(e) && e.symbol == s,
        None => entry_named(es, name) is None,
    } by {
        assert(latest_into(ts, calls, id, name, k + 1) == latest_into(ts, calls, id, name, k));
    }
}

proof fn lemma_entries_added(ts: Seq<SymbolTable>, calls: Seq<TableCall>, k: int)
    requires
        history(ts, calls),
        0 <= k < calls.len(),
        entries_facts(ts, calls, k),
        calls[k] is AddSymbol,
    ensures
        entries_facts(ts, calls, k + 1),
{
    let t0 = ts[k];
    let t1 = ts[k + 1];
    assert(call_made(t0, t1, calls[k]));
    let cur = t0.current as int;
    let (key, s) = match calls[k] {
        TableCall::AddSymbol(key, s) => (key, s),
        _ => arbitrary(),
    };
    let before = entries_of(t0.scopes@[cur].entries);
    let after = entries_of(t1.scopes@[cur].entries);
    let e = choose|e: TableEntry| e.symbol == s && e.fqn@ == t0.fqn_for(key@) && after == entries_inserted(before, key@, e);
    assert(scope_entries_facts(ts, calls, cur, k));
    lemma_inserted(before, key@, e);
    lemma_key_index(before, key@);
    assert forall|id: int| 0 <= id < t1.scopes@.len() implies #[trigger] scope_entries_facts(ts, calls, id, k + 1) by {
        assert(scope_entries_facts(ts, calls, id, k));
        if id != cur {
            assert(t1.scopes@[id] == t0.scopes@[id]);
            assert forall|name: Seq<char>| #[trigger] latest_into(ts, calls, id, name, k + 1) == latest_into(
                ts,
                calls,
                id,
                name,
                k,
            ) by {}
            lemma_entries_unchanged(ts, calls, id, k);
        } else {
            match key_index(before, key@) {
                Some(i) => {
                    assert(names_of(before).contains(key@)) by {
                        assert(names_of(before)[i] == key@);
                    }
                    assert(names_of(after) =~= names_of(before));
                },
                None => {
                    assert(!names_of(before).contains(key@)) by {
                        if names_of(before).contains(key@) {
                            let j = choose|j: int| 0 <= j < names_of(before).len() && names_of(before)[j] == key@;
                            assert(before[j].0 == key@);
                        }
                    }
                    assert(names_of(after) =~= names_of(before).push(key@));
                },
            }
            assert forall|name: Seq<char>| match latest_into(ts, calls, id, name, k + 1) {
                Some(x) => #[trigger] entry_named(after, name) matches Some(v) && v.symbol == x,
                None => entry_named(after, name) is None,
            } by {
                if name != key@ {
                    assert(entry_named(after, name) == entry_named(before, name));
                }
            }
        }
    }
}

proof fn lemma_entries_step(ts: Seq<SymbolTable>, calls: Seq<TableCall>, k: int)
    requires
        history(ts, calls),
        0 <= k < calls.len(),
        entries_facts(ts, calls, k),
    ensures
        entries_facts(ts, calls, k + 1),
{
    let t0 = ts[k];
    let t1 = ts[k + 1];
    assert(call_made(t0, t1, calls[k]));
    match calls[k] {
        TableCall::AddSymbol(_, _) => lemma_entries_added(ts, calls, k),
        TableCall::PushScope => {
            let (name, nid) = choose|name: Seq<char>, id: usize| #[trigger] scope_pushed(t0, t1, name, id);
            assert forall|id: int| 0 <= id < t1.scopes@.len() implies #[trigger] scope_entries_facts(ts, calls, id, k + 1) by {
                if id < t0.scopes@.len() {
                    assert(scope_entries_facts(ts, calls, id, k));
                    assert(t1.scopes@.drop_last()[id] == t1.scopes@[id]);
                    assert forall|n: Seq<char>| #[trigger] latest_into(ts, calls, id, n, k + 1) == latest_into(
                        ts,
                        calls,
                        id,
                        n,
                        k,
                    ) by {}
                    lemma_entries_unchanged(ts, calls, id, k);
                } else {
                    lemma_history_current_below(ts, calls, k);
                    lemma_nothing_into(ts, calls, id, k + 1);
                    let es = entries_of(t1.scopes@[id].entries);
                    assert(names_of(es) =~= Seq::<Seq<char>>::empty());
                    assert forall|n: Seq<char>| match latest_into(ts, calls, id, n, k + 1) {
                        Some(x) => #[trigger] entry_named(es, n) matches Some(v) && v.symbol == x,
                        None => entry_named(es, n) is None,
                    } by {
                        lemma_key_index(es, n);
                    }
                }
            }
        },
        TableCall::PopScope => {
            let pid = choose|id: usize| #[trigger] scope_popped(t0, t1, id);
            assert forall|id: int| 0 <= id < t1.scopes@.len() implies #[trigger] scope_entries_facts(ts, calls, id, k + 1) by {
                assert(scope_entries_facts(ts, calls, id, k));
                assert forall|n: Seq<char>| #[trigger] latest_into(ts, calls, id, n, k + 1) == latest_into(
                    ts,
                    calls,
                    id,
                    n,
                    k,
                ) by {}
                lemma_entries_unchanged(ts, calls, id, k);
            }
        },
        TableCall::AddImport(_) => {
            assert forall|id: int| 0 <= id < t1.scopes@.len() implies #[trigger] scope_entries_facts(ts, calls, id, k + 1) by {
                assert(scope_entries_facts(ts, calls, id, k));
                if id != t0.current as int {
                    assert(t1.scopes@[id] == t0.scopes@[id]);
                }
                assert forall|n: Seq<char>| #[trigger] latest_into(ts, calls, id, n, k + 1) == latest_into(
                    ts,
                    calls,
                    id,
                    n,
                    k,
                ) by {}
                lemma_entries_unchanged(ts, calls, id, k);
            }
        },
    }
}

/// Every table of the history has its current scope among its scopes,
/// and scopes are never taken away.
proof fn lemma_history_current_below(ts: Seq<SymbolTable>, calls: Seq<TableCall>, k: int)
    requires
        history(ts, calls),
        0 <= k <= calls.len(),
    ensures
        forall|j: int| 0 <= j <= k ==> (#[trigger] ts[j]).current < ts[j].scopes@.len() && ts[j].scopes@.len()
            <= ts[k].scopes@.len(),
    decreases k,
{
    if k > 0 {
        lemma_history_current_below(ts, calls, k - 1);
        assert(call_made(ts[k - 1], ts[k], calls[k - 1]));
        match calls[k - 1] {
            TableCall::PushScope => {
                let (name, id) = choose|name: Seq<char>, id: usize| #[trigger] scope_pushed(ts[k - 1], ts[k], name, id);
            },
            TableCall::PopScope => {
                let id = choose|id: usize| #[trigger] scope_popped(ts[k - 1], ts[k], id);
            },
            _ => {},
        }
    }
}

/// No call before `k` added anything to a scope made at `k`.
proof fn lemma_nothing_into(ts: Seq<SymbolTable>, calls: Seq<TableCall>, id: int, k: int)
    requires
        0 <= k <= calls.len(),
        forall|j: int| 0 <= j < k ==> (#[trigger] ts[j]).current != id,
    ensures
        keys_into(ts, calls, id, k) == Seq::<Seq<char>>::empty(),
        forall|n: Seq<char>| #[trigger] latest_into(ts, calls, id, n, k) is None,
    decreases k,
{
    if k > 0 {
        lemma_nothing_into(ts, calls, id, k - 1);
        assert forall|n: Seq<char>| #[trigger] latest_into(ts, calls, id, n, k) is None by {
            assert(latest_into(ts, calls, id, n, k - 1) is None);
        }
    }
}

proof fn lemma_entries_upto(ts: Seq<SymbolTable>, calls: Seq<TableCall>, k: int)
    requires
        history(ts, calls),
        0 <= k <= calls.len(),
    ensures
        entries_facts(ts, calls, k),
    decreases k,
{
    if k == 0 {
        assert forall|id: int| 0 <= id < ts[0].scopes@.len() implies #[trigger] scope_entries_facts(ts, calls, id, 0) by {
            let es = entries_of(ts[0].scopes@[id].entries);
            assert(id == 0);
            assert(names_of(es) =~= Seq::<Seq<char>>::empty());
            assert forall|n: Seq<char>| match latest_into(ts, calls, id, n, 0) {
                Some(x) => #[trigger] entry_named(es, n) matches Some(v) && v.symbol == x,
                None => entry_named(es, n) is None,
            } by {
                lemma_key_index(es, n);
            }
        }
    } else {
        lemma_entries_upto(ts, calls, k - 1);
        lemma_entries_step(ts, calls, k - 1);
    }
}

/// Over any sequence of calls on a table made by `new`, each scope holds
/// one entry for each name added to it while it was current, in the order
/// the names were first added, each holding the symbol added last under
/// its name: adding a name a scope already holds replaces its entry in
/// place.
pub proof fn law_entries_history(ts: Seq<SymbolTable>, calls: Seq<TableCall>)
    requires
        history(ts, calls),
    ensures
        entries_facts(ts, calls, calls.len() as int),
{
    lemma_entries_upto(ts, calls, calls.len() as int);
}

proof fn lemma_import_for_names(scopes: Seq<Scope>, name: Seq<char>, id: int)
    ensures
        import_for(scopes, name, id) matches Some(i) ==> crate::common::views(i.names@).contains(name),
    decreases id,
{
    if 0 <= id < scopes.len() {
        crate::ts::laws::lemma_first_import_names(scopes[id].imports@, name);
        match scopes[id].parent_at {
            Some(p) => if 0 <= p < id {
                lemma_import_for_names(scopes, name, p as int);
            },
            None => {},
        }
    }
}

proof fn lemma_first_table_names(tables: Seq<&SymbolTable>, file: Seq<char>, source: Seq<char>)
    ensures
        first_table(tables, file, source) matches Some(k) ==> 0 <= k < tables.len() && import_names_file(
            file,
            source,
            tables[k].file@,
        ),
    decreases tables.len(),
{
    if tables.len() > 0 && !import_names_file(file, source, tables[0].file@) {
        lemma_first_table_names(tables.drop_first(), file, source);
    }
}

/// A return type resolves through an import only to the fully qualified
/// name of an entry declared under the type's name in the root scope of
/// a table whose file the import naming the type names.
pub proof fn law_imported_return_types_resolve_to_root_entries(
    t: SymbolTable,
    tables: Seq<&SymbolTable>,
    s: int,
    e: TableEntry,
)
    requires
        forall|k: int| 0 <= k < tables.len() ==> (#[trigger] tables[k]).wf(),
    ensures
        imported_target(t, tables, s, e) matches Some(f) ==> exists|imp: Import, k: int, i: int|
            #![trigger entries_of(tables[k].scopes@[0].entries)[i], imp.source]
            {
                let entries = entries_of(tables[k].scopes@[0].entries);
                &&& pending_name(e) matches Some(n) && crate::common::views(imp.names@).contains(n)
                &&& 0 <= k < tables.len()
                &&& import_names_file(t.file@, imp.source@, tables[k].file@)
                &&& 0 <= i < entries.len()
                &&& pending_name(e) == Some(entries[i].0)
                &&& entries[i].1.fqn == f
            },
{
    if let Some(n) = pending_name(e) {
        lemma_import_for_names(t.scopes@, n, s);
        if let Some(imp) = import_for(t.scopes@, n, s) {
            lemma_first_table_names(tables, t.file@, imp.source@);
            if let Some(k) = first_table(tables, t.file@, imp.source@) {
                let entries = entries_of(tables[k].scopes@[0].entries);
                lemma_key_index(entries, n);
                if let Some(i) = key_index(entries, n) {
                    assert(tables[k].wf());
                    assert(imp.source == imp.source);
                    assert(entries[i].0 == n);
                }
            }
        }
    }
}

} // verus!
