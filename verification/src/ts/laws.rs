//! What holds of the symbol table across its operations.
use vstd::prelude::*;
use crate::common::{qualified, views};
use crate::ts::symbol::{exported, kind_children, kind_identifier, mark_exported, retargeted, retargeted_all, Symbol};
use crate::ts::import::Import;
use crate::ts::context::ParserContext;
use crate::ts::declarations::{exported_names, statement_read};
use crate::ts::symbol_table::{
    all_imports_of, first_in_scope, lemma_first_in_scope, lemma_lookup_from_found, lemma_lookup_push, lemma_position_from, scope_names, scope_popped,
    scope_pushed, scopes_wf, visible_as, after, first_import, first_table, import_for, imported_fqn, position_of, Scope,
    ScopeID, SymbolTable,
};
use crate::paths::import_names_file;

verus! {

broadcast use vstd::seq_lib::group_seq_properties;

/// Leaving a scope just entered makes the scope that was current before
/// current again, and keeps the new scope in the table.
pub proof fn law_pop_scope_undoes_push_scope(
    t0: SymbolTable,
    t1: SymbolTable,
    t2: SymbolTable,
    name: Option<Seq<char>>,
    pushed: usize,
    popped: usize,
)
    requires
        t0.wf(),
        scope_pushed(t0, t1, name, pushed),
        scope_popped(t1, t2, popped),
    ensures
        popped == pushed,
        t2.current == t0.current,
        t2.scopes == t1.scopes,
        t2.scopes@.drop_last() == t0.scopes@,
        t2.symbols == t0.symbols,
        t2.file == t0.file,
        t2.fqn_parts == t0.fqn_parts,
{
    assert(t1.scopes@[t1.current as int] == t1.scopes@.last());
}

/// A lookup for change hands out the symbol a plain lookup finds, at the
/// position it holds; a caller that writes nothing back through it leaves
/// the table as it was.
pub proof fn law_lookup_mut_unchanged(t0: SymbolTable, t1: SymbolTable, name: Seq<char>, scope: int)
    requires
        t1.same_but_symbols(t0),
        match t0.lookup_index(name, scope) {
            Some(i) => t1.symbols@ == t0.symbols@.update(i, t0.symbols@[i]),
            None => t1.symbols == t0.symbols,
        },
    ensures
        t1.symbols@ == t0.symbols@,
        t1.lookup_index(name, scope) == t0.lookup_index(name, scope),
{
    lemma_lookup_from_found(t0.scopes@, t0.symbols@, name, scope);
    if let Some(i) = t0.lookup_index(name, scope) {
        assert(t1.symbols@ =~= t0.symbols@);
    }
}

/// Whether no two scopes of the table share an identifier.
pub open spec fn distinct_ids(t: SymbolTable) -> bool {
    forall|i: int, j: int|
        0 <= i < j < t.scopes@.len() ==> (#[trigger] t.scopes@[i]).id != (#[trigger] t.scopes@[j]).id
}

/// A counter of scope or symbol identifiers hands out increasing
/// identifiers: as long as it has not handed out the largest `usize`, each
/// identifier taken is larger than every one taken before. A counter of
/// symbol identifiers starts at 1, so it hands out no 0 before then.
pub proof fn law_counter_ids_increase(taken: Seq<ScopeID>)
    requires
        forall|i: int| 0 <= i < taken.len() - 1 ==> #[trigger] taken[i + 1] == after(taken[i]),
        forall|i: int| 0 <= i < taken.len() - 1 ==> #[trigger] taken[i] < usize::MAX,
    ensures
        forall|i: int, j: int| 0 <= i < j < taken.len() ==> #[trigger] taken[i] < #[trigger] taken[j],
    decreases taken.len(),
{
    if taken.len() > 1 {
        let front = taken.drop_last();
        assert forall|i: int| 0 <= i < front.len() - 1 implies #[trigger] front[i + 1] == after(front[i]) by {
            assert(taken[i + 1] == after(taken[i]));
        }
        assert forall|i: int| 0 <= i < front.len() - 1 implies #[trigger] front[i] < usize::MAX by {
            assert(taken[i] < usize::MAX);
        }
        law_counter_ids_increase(front);
        let n = taken.len() - 1;
        let m = n - 1;
        assert(taken[m + 1] == after(taken[m]));
        assert(taken[m] < usize::MAX);
        assert forall|i: int, j: int| 0 <= i < j < taken.len() implies #[trigger] taken[i] < #[trigger] taken[j] by {
            assert(front[i] == taken[i]);
            if j < n {
                assert(front[j] == taken[j]);
                assert(front[i] < front[j]);
            } else if i < n - 1 {
                assert(front[n - 1] == taken[n - 1]);
                assert(front[i] < front[n - 1]);
            }
        }
    }
}

/// A new table's root scope gets an identifier that no scope of an
/// earlier table has, when the counter it came from had passed every
/// identifier of that table.
pub proof fn law_new_table_is_fresh(earlier: SymbolTable, t: SymbolTable, next: ScopeID)
    requires
        earlier.ids_below(next),
        t.scopes@.len() > 0,
        t.scopes@[0].id == next,
    ensures
        forall|i: int| 0 <= i < earlier.scopes@.len() ==> (#[trigger] earlier.scopes@[i]).id < t.scopes@[0].id,
{
}

/// Entering a scope with a counter above every identifier of the table
/// gives the new scope an identifier larger than every one the table had:
/// the identifiers stay distinct and below the counter.
pub proof fn law_pushed_scope_is_fresh(
    t0: SymbolTable,
    t1: SymbolTable,
    name: Option<Seq<char>>,
    next: ScopeID,
)
    requires
        t0.wf(),
        t0.ids_below(next),
        distinct_ids(t0),
        next < usize::MAX,
        scope_pushed(t0, t1, name, next),
    ensures
        forall|i: int| 0 <= i < t0.scopes@.len() ==> (#[trigger] t0.scopes@[i]).id < t1.current_id(),
        distinct_ids(t1),
        t1.ids_below(after(next)),
{
    let n = t0.scopes@.len() as int;
    assert(t1.scopes@[n] == t1.scopes@.last());
    assert forall|i: int| 0 <= i < n implies #[trigger] t1.scopes@[i] == t0.scopes@[i] by {
        assert(t1.scopes@.drop_last()[i] == t1.scopes@[i]);
    }
    assert forall|i: int, j: int| 0 <= i < j < t1.scopes@.len() implies (#[trigger] t1.scopes@[i]).id != (
    #[trigger] t1.scopes@[j]).id by {
        if j < n {
            assert(t0.scopes@[i].id != t0.scopes@[j].id);
        } else {
            assert(t0.scopes@[i].id < next);
        }
    }
    assert forall|i: int| 0 <= i < t1.scopes@.len() implies (#[trigger] t1.scopes@[i]).id < after(next) by {
        if i < n {
            assert(t0.scopes@[i].id < next);
        }
    }
}

/// Adding a symbol not visible under a name from a scope leaves what a
/// lookup of the name from there finds; a lookup that found nothing finds
/// the new symbol exactly when it is visible; and a symbol added in the
/// scope looked from is found unless that scope already declared the name.
pub proof fn law_lookup_after_add_symbol(
    t0: SymbolTable,
    t1: SymbolTable,
    s: Symbol,
    name: Seq<char>,
    scope: int,
)
    requires
        t1.same_but_symbols(t0),
        t1.symbols@ == t0.symbols@.push(s),
    ensures
        !visible_as(t0.scopes@, s, name, scope) ==> t1.lookup_index(name, scope) == t0.lookup_index(name, scope),
        t0.lookup_index(name, scope) is None ==> (t1.lookup_index(name, scope) == if visible_as(
            t0.scopes@,
            s,
            name,
            scope,
        ) {
            Some(t0.symbols@.len() as int)
        } else {
            None::<int>
        }),
        s.scope_id == scope && kind_identifier(s.kind) == Some(name) ==> t1.lookup_index(name, scope) == match first_in_scope(
            t0.symbols@,
            name,
            scope,
            0,
        ) {
            Some(i) => Some(i),
            None => Some(t0.symbols@.len() as int),
        },
{
    lemma_lookup_push(t0.scopes@, t0.symbols@, s, name, scope);
}

/// A lookup finds the symbol declared under the name in the nearest scope:
/// one declared in the scope looked from wins over any declared around it.
pub proof fn law_lookup_prefers_nearest_scope(t: SymbolTable, name: Seq<char>, scope: int)
    requires
        t.wf(),
        first_in_scope(t.symbols@, name, scope, 0) is Some,
    ensures
        t.lookup_index(name, scope) == first_in_scope(t.symbols@, name, scope, 0),
        t.lookup_index(name, scope) matches Some(i) && t.symbols@[i].scope_id == scope,
{
    lemma_first_in_scope(t.symbols@, name, scope, 0);
    lemma_position_from(t.scopes@, scope, 0);
}

/// A symbol exported by name is the one a lookup from the current scope
/// finds, and afterwards it counts as exported when it is a type alias.
pub proof fn law_export_marks_the_symbol_looked_up(t0: SymbolTable, t1: SymbolTable, name: Seq<char>)
    requires
        t0.wf(),
        t1.same_but_symbols(t0),
        match t0.lookup_index(name, t0.current_id() as int) {
            Some(i) => t1.symbols@ == t0.symbols@.update(i, mark_exported(t0.symbols@[i])),
            None => t1.symbols == t0.symbols,
        },
    ensures
        t0.lookup_index(name, t0.current_id() as int) matches Some(i) ==> (
        t0.symbols@[i].kind is TypeAlias ==> exported(t1.symbols@[i])),
        t0.lookup_index(name, t0.current_id() as int) matches Some(i) ==> (
        t1.symbols@[i].fqn == t0.symbols@[i].fqn),
{
    lemma_lookup_from_found(t0.scopes@, t0.symbols@, name, t0.current_id() as int);
}

proof fn lemma_scope_names_prefix(s0: Seq<Scope>, s1: Seq<Scope>, id: int)
    requires
        s1.len() >= s0.len(),
        forall|i: int| 0 <= i < s0.len() ==> s1[i] == s0[i],
    ensures
        0 <= id < s0.len() ==> scope_names(s1, id) == scope_names(s0, id),
    decreases id,
{
    if 0 <= id < s0.len() {
        match s0[id].parent_at {
            Some(p) => {
                if 0 <= p < id {
                    lemma_scope_names_prefix(s0, s1, p as int);
                }
            },
            None => {},
        }
    }
}

/// The fully qualified name of a symbol declared just after entering a
/// scope named `name` is the one it would have had before, with `name`
/// inserted after the names of the scopes around it.
pub proof fn law_fqn_inside_pushed_scope(
    t0: SymbolTable,
    t1: SymbolTable,
    name: Seq<char>,
    id: usize,
    ident: Seq<char>,
)
    requires
        t0.wf(),
        scope_pushed(t0, t1, Some(name), id),
    ensures
        t1.fqn_for(ident) == t0.file@ + qualified(
            scope_names(t0.scopes@, t0.current as int).push(name) + views(t0.fqn_parts@),
        ) + seq![':', ':'] + ident,
{
    let s0 = t0.scopes@;
    let s1 = t1.scopes@;
    assert forall|i: int| 0 <= i < s0.len() implies s1[i] == s0[i] by {
        assert(s1.drop_last()[i] == s1[i]);
    }
    lemma_scope_names_prefix(s0, s1, t0.current as int);
    let last = s1[t1.current as int];
    assert(last == s1.last());
    assert(last.identifier matches Some(n) && n@ == name);
    assert(scope_names(s1, t1.current as int) == scope_names(s1, t0.current as int).push(name));
}

/// Type resolution keeps every symbol's identifier, fully qualified name,
/// context, scope and source, and the number of symbols.
pub proof fn law_resolution_keeps_symbols(
    before: Seq<Symbol>,
    after: Seq<Symbol>,
    target: spec_fn(Seq<char>, int) -> Option<String>,
)
    requires
        retargeted_all(before, after, target),
    ensures
        before.len() == after.len(),
        forall|i: int|
            0 <= i < before.len() ==> (#[trigger] after[i]).fqn == before[i].fqn && after[i].context
                == before[i].context && after[i].scope_id == before[i].scope_id && after[i].id == before[i].id
                && after[i].source
                == before[i].source && kind_children(after[i].kind).len() == kind_children(
                before[i].kind,
            ).len(),
{
    assert forall|i: int| 0 <= i < before.len() implies (#[trigger] after[i]).fqn == before[i].fqn
        && after[i].context == before[i].context && after[i].scope_id == before[i].scope_id && after[i].id == before[i].id
        && after[i].source == before[i].source && kind_children(after[i].kind).len()
        == kind_children(before[i].kind).len() by {
        assert(retargeted(before[i], after[i], target));
    }
}


/// A call made on a symbol table.
pub enum TableCall {
    PushScope,
    PopScope,
    AddSymbol(Symbol),
    AddImport(Import),
    ExportSymbol,
    ResolveTypes,
}

/// Whether `t1` is what the call `c` leaves of `t0`, as the call's own
/// contract states it.
pub open spec fn call_made(t0: SymbolTable, t1: SymbolTable, c: TableCall) -> bool {
    &&& t0.wf()
    &&& match c {
        TableCall::PushScope => exists|name: Option<Seq<char>>, id: usize| #[trigger] scope_pushed(t0, t1, name, id),
        TableCall::PopScope => exists|id: usize| #[trigger] scope_popped(t0, t1, id),
        TableCall::AddSymbol(s) => t1.same_but_symbols(t0) && t1.symbols@ == t0.symbols@.push(s),
        TableCall::AddImport(i) => {
            let cur = t0.current as int;
            &&& t1.wf()
            &&& t1.file == t0.file
            &&& t1.symbols == t0.symbols
            &&& t1.current == t0.current
            &&& t1.fqn_parts == t0.fqn_parts
            &&& t1.scopes@.len() == t0.scopes@.len()
            &&& forall|j: int| 0 <= j < t0.scopes@.len() && j != cur ==> #[trigger] t1.scopes@[j] == t0.scopes@[j]
            &&& t1.scopes@[cur].identifier == t0.scopes@[cur].identifier
            &&& t1.scopes@[cur].id == t0.scopes@[cur].id
            &&& t1.scopes@[cur].parent == t0.scopes@[cur].parent
            &&& t1.scopes@[cur].parent_at == t0.scopes@[cur].parent_at
            &&& t1.scopes@[cur].imports@ == t0.scopes@[cur].imports@.push(i)
        },
        TableCall::ExportSymbol => {
            &&& t1.same_but_symbols(t0)
            &&& t1.symbols@.len() == t0.symbols@.len()
            &&& forall|j: int| 0 <= j < t0.symbols@.len() ==> #[trigger] t1.symbols@[j] == t0.symbols@[j]
                || t1.symbols@[j] == mark_exported(t0.symbols@[j])
        },
        TableCall::ResolveTypes => {
            &&& t1.wf()
            &&& t1.same_but_symbols(t0)
            &&& exists|target: spec_fn(Seq<char>, int) -> Option<String>| retargeted_all(t0.symbols@, t1.symbols@, target)
        },
    }
}

/// Whether `ts` are the tables a table goes through under the calls
/// `calls`, the first as `new` makes it.
pub open spec fn history(ts: Seq<SymbolTable>, calls: Seq<TableCall>) -> bool {
    &&& ts.len() == calls.len() + 1
    &&& ts[0].wf()
    &&& ts[0].scopes@.len() == 1
    &&& ts[0].scopes@[0].identifier is None
    &&& ts[0].scopes@[0].imports@.len() == 0
    &&& ts[0].symbols@.len() == 0
    &&& ts[0].current == 0
    &&& forall|k: int| 0 <= k < calls.len() ==> call_made(#[trigger] ts[k], ts[k + 1], calls[k])
}

/// The scopes entered and not yet left after the first `k` calls,
/// outermost first.
pub open spec fn open_scopes(ts: Seq<SymbolTable>, calls: Seq<TableCall>, k: int) -> Seq<usize>
    decreases k,
{
    if k <= 0 {
        Seq::empty()
    } else {
        let before = open_scopes(ts, calls, k - 1);
        match calls[k - 1] {
            TableCall::PushScope => before.push(ts[k].current),
            TableCall::PopScope => if before.len() > 0 {
                before.drop_last()
            } else {
                before
            },
            _ => before,
        }
    }
}

/// The symbols the first `k` calls add, in order.
pub open spec fn added_symbols(calls: Seq<TableCall>, k: int) -> Seq<Symbol>
    decreases k,
{
    if k <= 0 {
        Seq::empty()
    } else {
        match calls[k - 1] {
            TableCall::AddSymbol(s) => added_symbols(calls, k - 1).push(s),
            _ => added_symbols(calls, k - 1),
        }
    }
}

/// The imports the first `k` calls add while scope `id` is current, in
/// order.
pub open spec fn imports_into(ts: Seq<SymbolTable>, calls: Seq<TableCall>, id: int, k: int) -> Seq<Import>
    decreases k,
{
    if k <= 0 {
        Seq::empty()
    } else {
        match calls[k - 1] {
            TableCall::AddImport(i) => if ts[k - 1].current == id {
                imports_into(ts, calls, id, k - 1).push(i)
            } else {
                imports_into(ts, calls, id, k - 1)
            },
            _ => imports_into(ts, calls, id, k - 1),
        }
    }
}

/// What holds of the table after the first `k` calls.
pub open spec fn history_facts(ts: Seq<SymbolTable>, calls: Seq<TableCall>, k: int) -> bool {
    let t = ts[k];
    let open = open_scopes(ts, calls, k);
    let added = added_symbols(calls, k);
    &&& t.wf()
    &&& t.scopes@[0].parent is None
    &&& t.scopes@[0].identifier is None
    &&& t.current == if open.len() > 0 { open.last() } else { 0 }
    &&& forall|j: int| 0 <= j < open.len() ==> (#[trigger] open[j]) < t.scopes@.len() && t.scopes@[open[j] as int].parent_at
        == Some(if j > 0 { open[j - 1] } else { 0usize })
    &&& t.symbols@.len() == added.len()
    &&& forall|j: int| 0 <= j < added.len() ==> (#[trigger] t.symbols@[j]).fqn == added[j].fqn && t.symbols@[j].scope_id
        == added[j].scope_id && t.symbols@[j].source == added[j].source && t.symbols@[j].context == added[j].context
        && t.symbols@[j].id == added[j].id
    &&& forall|id: int| 0 <= id < t.scopes@.len() ==> (#[trigger] t.scopes@[id]).imports@ == imports_into(ts, calls, id, k)
}

proof fn lemma_step_push(ts: Seq<SymbolTable>, calls: Seq<TableCall>, k: int)
    requires
        history(ts, calls),
        0 <= k < calls.len(),
        history_facts(ts, calls, k),
        calls[k] is PushScope,
    ensures
        history_facts(ts, calls, k + 1),
{
    let t0 = ts[k];
    let t1 = ts[k + 1];
    assert(call_made(t0, t1, calls[k]));
    let open0 = open_scopes(ts, calls, k);
    let open1 = open_scopes(ts, calls, k + 1);
    assert(open1 == open0.push(t1.current));
    let (name, id) = choose|name: Option<Seq<char>>, id: usize| #[trigger] scope_pushed(t0, t1, name, id);
    assert(t1.scopes@.drop_last()[0] == t1.scopes@[0]);
    assert forall|j: int| 0 <= j < open1.len() implies (#[trigger] open1[j]) < t1.scopes@.len()
        && t1.scopes@[open1[j] as int].parent_at == Some(if j > 0 { open1[j - 1] } else { 0usize }) by {
        if j < open0.len() {
            assert(open1[j] == open0[j]);
            assert(t1.scopes@.drop_last()[open0[j] as int] == t1.scopes@[open0[j] as int]);
            if j > 0 {
                assert(open1[j - 1] == open0[j - 1]);
            }
        } else {
            assert(open1[j] == t1.current);
            if j > 0 {
                assert(open1[j - 1] == open0[j - 1]);
                assert(open0[j - 1] == open0.last());
            }
        }
    }
    assert forall|j: int| 0 <= j < added_symbols(calls, k + 1).len() implies (#[trigger] t1.symbols@[j]).fqn
        == added_symbols(calls, k + 1)[j].fqn && t1.symbols@[j].scope_id == added_symbols(calls, k + 1)[j].scope_id
        && t1.symbols@[j].source == added_symbols(calls, k + 1)[j].source && t1.symbols@[j].context == added_symbols(
        calls,
        k + 1,
    )[j].context && t1.symbols@[j].id == added_symbols(calls, k + 1)[j].id by {
        assert(t1.symbols@[j] == t0.symbols@[j]);
    }
    assert forall|i: int| 0 <= i < t1.scopes@.len() implies (#[trigger] t1.scopes@[i]).imports@ == imports_into(
        ts,
        calls,
        i,
        k + 1,
    ) by {
        if i < t0.scopes@.len() {
            assert(t1.scopes@.drop_last()[i] == t1.scopes@[i]);
        } else {
            lemma_imports_into_new(ts, calls, i, k + 1);
        }
    }
}

proof fn lemma_step_pop(ts: Seq<SymbolTable>, calls: Seq<TableCall>, k: int)
    requires
        history(ts, calls),
        0 <= k < calls.len(),
        history_facts(ts, calls, k),
        calls[k] is PopScope,
    ensures
        history_facts(ts, calls, k + 1),
{
    let t0 = ts[k];
    let t1 = ts[k + 1];
    assert(call_made(t0, t1, calls[k]));
    let open0 = open_scopes(ts, calls, k);
    let open1 = open_scopes(ts, calls, k + 1);
    let id = choose|id: usize| #[trigger] scope_popped(t0, t1, id);
    if open0.len() > 0 {
        assert(open1 == open0.drop_last());
        assert(open0[open0.len() - 1] == open0.last());
        if open0.len() > 1 {
            assert(open1.last() == open0[open0.len() - 2]);
        }
    } else {
        assert(open1 == open0);
    }
    assert forall|j: int| 0 <= j < open1.len() implies (#[trigger] open1[j]) < t1.scopes@.len()
        && t1.scopes@[open1[j] as int].parent_at == Some(if j > 0 { open1[j - 1] } else { 0usize }) by {
        assert(open1[j] == open0[j]);
        if j > 0 {
            assert(open1[j - 1] == open0[j - 1]);
        }
    }
    assert forall|j: int| 0 <= j < added_symbols(calls, k + 1).len() implies (#[trigger] t1.symbols@[j]).fqn
        == added_symbols(calls, k + 1)[j].fqn && t1.symbols@[j].scope_id == added_symbols(calls, k + 1)[j].scope_id
        && t1.symbols@[j].source == added_symbols(calls, k + 1)[j].source && t1.symbols@[j].context == added_symbols(
        calls,
        k + 1,
    )[j].context && t1.symbols@[j].id == added_symbols(calls, k + 1)[j].id by {
        assert(t1.symbols@[j] == t0.symbols@[j]);
    }
    assert forall|i: int| 0 <= i < t1.scopes@.len() implies (#[trigger] t1.scopes@[i]).imports@ == imports_into(
        ts,
        calls,
        i,
        k + 1,
    ) by {
        assert(t1.scopes@[i] == t0.scopes@[i]);
    }
}

proof fn lemma_step_symbols(ts: Seq<SymbolTable>, calls: Seq<TableCall>, k: int)
    requires
        history(ts, calls),
        0 <= k < calls.len(),
        history_facts(ts, calls, k),
        calls[k] is AddSymbol || calls[k] is ExportSymbol || calls[k] is ResolveTypes,
    ensures
        history_facts(ts, calls, k + 1),
{
    let t0 = ts[k];
    let t1 = ts[k + 1];
    assert(call_made(t0, t1, calls[k]));
    let added0 = added_symbols(calls, k);
    let added1 = added_symbols(calls, k + 1);
    assert(open_scopes(ts, calls, k + 1) == open_scopes(ts, calls, k));
    assert(t1.scopes == t0.scopes);
    if let TableCall::ResolveTypes = calls[k] {
        let target = choose|target: spec_fn(Seq<char>, int) -> Option<String>| retargeted_all(
            t0.symbols@,
            t1.symbols@,
            target,
        );
        law_resolution_keeps_symbols(t0.symbols@, t1.symbols@, target);
    }
    assert forall|j: int| 0 <= j < added1.len() implies (#[trigger] t1.symbols@[j]).fqn == added1[j].fqn
        && t1.symbols@[j].scope_id == added1[j].scope_id && t1.symbols@[j].source == added1[j].source
        && t1.symbols@[j].context == added1[j].context && t1.symbols@[j].id == added1[j].id by {
        match calls[k] {
            TableCall::AddSymbol(s) => {
                if j < t0.symbols@.len() {
                    assert(t1.symbols@[j] == t0.symbols@[j]);
                    assert(added1[j] == added0[j]);
                }
            },
            TableCall::ExportSymbol => {
                assert(t1.symbols@[j] == t0.symbols@[j] || t1.symbols@[j] == mark_exported(t0.symbols@[j]));
            },
            _ => {},
        }
    }
    assert forall|i: int| 0 <= i < t1.scopes@.len() implies (#[trigger] t1.scopes@[i]).imports@ == imports_into(
        ts,
        calls,
        i,
        k + 1,
    ) by {
        assert(t1.scopes@[i] == t0.scopes@[i]);
    }
}

proof fn lemma_step_import(ts: Seq<SymbolTable>, calls: Seq<TableCall>, k: int)
    requires
        history(ts, calls),
        0 <= k < calls.len(),
        history_facts(ts, calls, k),
        calls[k] is AddImport,
    ensures
        history_facts(ts, calls, k + 1),
{
    let t0 = ts[k];
    let t1 = ts[k + 1];
    assert(call_made(t0, t1, calls[k]));
    let cur = t0.current as int;
    let open0 = open_scopes(ts, calls, k);
    let open1 = open_scopes(ts, calls, k + 1);
    assert(open1 == open0);
    if cur != 0 {
        assert(t1.scopes@[0] == t0.scopes@[0]);
    }
    assert forall|j: int| 0 <= j < open1.len() implies (#[trigger] open1[j]) < t1.scopes@.len()
        && t1.scopes@[open1[j] as int].parent_at == Some(if j > 0 { open1[j - 1] } else { 0usize }) by {
        if open0[j] as int != cur {
            assert(t1.scopes@[open0[j] as int] == t0.scopes@[open0[j] as int]);
        }
    }
    assert forall|j: int| 0 <= j < added_symbols(calls, k + 1).len() implies (#[trigger] t1.symbols@[j]).fqn
        == added_symbols(calls, k + 1)[j].fqn && t1.symbols@[j].scope_id == added_symbols(calls, k + 1)[j].scope_id
        && t1.symbols@[j].source == added_symbols(calls, k + 1)[j].source && t1.symbols@[j].context == added_symbols(
        calls,
        k + 1,
    )[j].context && t1.symbols@[j].id == added_symbols(calls, k + 1)[j].id by {
        assert(t1.symbols@[j] == t0.symbols@[j]);
    }
    assert forall|i: int| 0 <= i < t1.scopes@.len() implies (#[trigger] t1.scopes@[i]).imports@ == imports_into(
        ts,
        calls,
        i,
        k + 1,
    ) by {
        if i != cur {
            assert(t1.scopes@[i] == t0.scopes@[i]);
        }
    }
}

proof fn lemma_history_step(ts: Seq<SymbolTable>, calls: Seq<TableCall>, k: int)
    requires
        history(ts, calls),
        0 <= k < calls.len(),
        history_facts(ts, calls, k),
    ensures
        history_facts(ts, calls, k + 1),
{
    match calls[k] {
        TableCall::PushScope => lemma_step_push(ts, calls, k),
        TableCall::PopScope => lemma_step_pop(ts, calls, k),
        TableCall::AddImport(_) => lemma_step_import(ts, calls, k),
        _ => lemma_step_symbols(ts, calls, k),
    }
}

/// A scope made by the `k`th call got no import before.
proof fn lemma_imports_into_new(ts: Seq<SymbolTable>, calls: Seq<TableCall>, id: int, k: int)
    requires
        history(ts, calls),
        1 <= k <= calls.len(),
        calls[k - 1] is PushScope,
        ts[k].current == id,
        id == ts[k - 1].scopes@.len(),
    ensures
        imports_into(ts, calls, id, k) == Seq::<Import>::empty(),
{
    lemma_history_scopes_grow(ts, calls, k - 1);
    assert forall|j: int| 0 <= j < k implies (#[trigger] ts[j]).current != id by {
        if j < k - 1 {
            assert(ts[j].scopes@.len() <= ts[k - 1].scopes@.len());
        }
    }
    lemma_imports_into_empty(ts, calls, id, k);
}

/// The current scope is always among the scopes there are, and scopes
/// are never taken away.
proof fn lemma_history_scopes_grow(ts: Seq<SymbolTable>, calls: Seq<TableCall>, k: int)
    requires
        history(ts, calls),
        0 <= k <= calls.len(),
    ensures
        forall|j: int| 0 <= j <= k ==> (#[trigger] ts[j]).current < ts[j].scopes@.len() && ts[j].scopes@.len()
            <= ts[k].scopes@.len(),
    decreases k,
{
    if k > 0 {
        lemma_history_scopes_grow(ts, calls, k - 1);
        assert(call_made(ts[k - 1], ts[k], calls[k - 1]));
        match calls[k - 1] {
            TableCall::PushScope => {
                let (name, id) = choose|name: Option<Seq<char>>, id: usize| #[trigger] scope_pushed(ts[k - 1], ts[k], name, id);
            },
            TableCall::PopScope => {
                let id = choose|id: usize| #[trigger] scope_popped(ts[k - 1], ts[k], id);
            },
            _ => {},
        }
    }
}

proof fn lemma_imports_into_empty(ts: Seq<SymbolTable>, calls: Seq<TableCall>, id: int, k: int)
    requires
        0 <= k <= calls.len(),
        forall|j: int| 0 <= j < k ==> (#[trigger] ts[j]).current != id,
    ensures
        imports_into(ts, calls, id, k) == Seq::<Import>::empty(),
    decreases k,
{
    if k > 0 {
        lemma_imports_into_empty(ts, calls, id, k - 1);
    }
}

/// Over any sequence of calls on a table made by `new`, symbols change
/// only when one is exported or types are resolved: adding a symbol puts
/// it last, as given; exporting marks symbols exported and changes nothing
/// else; resolving retargets types; every other call keeps the symbols.
/// Where no call exports or resolves, the symbols are exactly those added,
/// in the order added.
pub proof fn law_symbols_change_only_by_export_or_resolution(ts: Seq<SymbolTable>, calls: Seq<TableCall>)
    requires
        history(ts, calls),
    ensures
        forall|k: int|
            0 <= k < calls.len() ==> match #[trigger] calls[k] {
                TableCall::AddSymbol(s) => ts[k + 1].symbols@ == ts[k].symbols@.push(s),
                TableCall::ExportSymbol => ts[k + 1].symbols@.len() == ts[k].symbols@.len() && forall|j: int|
                    0 <= j < ts[k].symbols@.len() ==> #[trigger] ts[k + 1].symbols@[j] == ts[k].symbols@[j]
                        || ts[k + 1].symbols@[j] == mark_exported(ts[k].symbols@[j]),
                TableCall::ResolveTypes => exists|target: spec_fn(Seq<char>, int) -> Option<String>|
                    #[trigger] retargeted_all(ts[k].symbols@, ts[k + 1].symbols@, target),
                _ => ts[k + 1].symbols == ts[k].symbols,
            },
        (forall|k: int| 0 <= k < calls.len() ==> !(#[trigger] calls[k] is ExportSymbol) && !(calls[k] is ResolveTypes))
            ==> ts[calls.len() as int].symbols@ == added_symbols(calls, calls.len() as int),
{
    assert forall|k: int| 0 <= k < calls.len() implies match #[trigger] calls[k] {
        TableCall::AddSymbol(s) => ts[k + 1].symbols@ == ts[k].symbols@.push(s),
        TableCall::ExportSymbol => ts[k + 1].symbols@.len() == ts[k].symbols@.len() && forall|j: int|
            0 <= j < ts[k].symbols@.len() ==> #[trigger] ts[k + 1].symbols@[j] == ts[k].symbols@[j]
                || ts[k + 1].symbols@[j] == mark_exported(ts[k].symbols@[j]),
        TableCall::ResolveTypes => exists|target: spec_fn(Seq<char>, int) -> Option<String>|
            #[trigger] retargeted_all(ts[k].symbols@, ts[k + 1].symbols@, target),
        _ => ts[k + 1].symbols == ts[k].symbols,
    } by {
        assert(call_made(ts[k], ts[k + 1], calls[k]));
        match calls[k] {
            TableCall::PushScope => {
                let (name, id) = choose|name: Option<Seq<char>>, id: usize| #[trigger] scope_pushed(ts[k], ts[k + 1], name, id);
            },
            TableCall::PopScope => {
                let id = choose|id: usize| #[trigger] scope_popped(ts[k], ts[k + 1], id);
            },
            _ => {},
        }
    }
    if forall|k: int| 0 <= k < calls.len() ==> !(#[trigger] calls[k] is ExportSymbol) && !(calls[k] is ResolveTypes) {
        lemma_symbols_added(ts, calls, calls.len() as int);
    }
}

proof fn lemma_symbols_added(ts: Seq<SymbolTable>, calls: Seq<TableCall>, m: int)
    requires
        history(ts, calls),
        0 <= m <= calls.len(),
        forall|k: int|
            0 <= k < calls.len() ==> match #[trigger] calls[k] {
                TableCall::AddSymbol(s) => ts[k + 1].symbols@ == ts[k].symbols@.push(s),
                TableCall::ExportSymbol => true,
                TableCall::ResolveTypes => true,
                _ => ts[k + 1].symbols == ts[k].symbols,
            },
        forall|k: int| 0 <= k < calls.len() ==> !(#[trigger] calls[k] is ExportSymbol) && !(calls[k] is ResolveTypes),
    ensures
        ts[m].symbols@ == added_symbols(calls, m),
    decreases m,
{
    if m > 0 {
        lemma_symbols_added(ts, calls, m - 1);
        let k = m - 1;
        assert(!(calls[k] is ExportSymbol) && !(calls[k] is ResolveTypes));
        match calls[k] {
            TableCall::AddSymbol(s) => {},
            _ => {},
        }
    } else {
        assert(ts[0].symbols@ =~= added_symbols(calls, 0));
    }
}

/// Over any sequence of calls on a table made by `new`: the root scope
/// stays the first scope, with no parent and no name; the current scope is
/// the one entered last and not yet left, or the root where every scope
/// entered was left, each open scope inside the one opened before it; the
/// symbols are those added, in the order added, each keeping its
/// identifier, fully qualified name, scope, source and context; and the imports of each
/// scope are those added while it was current, in the order added.
pub proof fn law_table_history(ts: Seq<SymbolTable>, calls: Seq<TableCall>)
    requires
        history(ts, calls),
    ensures
        history_facts(ts, calls, calls.len() as int),
{
    lemma_history_upto(ts, calls, calls.len() as int);
}

proof fn lemma_history_upto(ts: Seq<SymbolTable>, calls: Seq<TableCall>, k: int)
    requires
        history(ts, calls),
        0 <= k <= calls.len(),
    ensures
        history_facts(ts, calls, k),
    decreases k,
{
    if k == 0 {
        assert(open_scopes(ts, calls, 0).len() == 0);
        assert forall|id: int| 0 <= id < ts[0].scopes@.len() implies (#[trigger] ts[0].scopes@[id]).imports@
            == imports_into(ts, calls, id, 0) by {
            assert(id == 0);
        }
    } else {
        lemma_history_upto(ts, calls, k - 1);
        lemma_history_step(ts, calls, k - 1);
    }
}

/// With no qualifying names pending, the fully qualified name of a name
/// declared in the current scope is the file, then the names of the named
/// scopes from the root down to the current one, then the name, each part
/// after `::`.
pub proof fn law_fqn_of_scopes(t: SymbolTable, ident: Seq<char>)
    requires
        t.wf(),
        t.fqn_parts@.len() == 0,
    ensures
        t.fqn_for(ident) == t.file@ + qualified(scope_names(t.scopes@, t.current as int)) + seq![':', ':']
            + ident,
{
    assert(scope_names(t.scopes@, t.current as int) + views(t.fqn_parts@) =~= scope_names(
        t.scopes@,
        t.current as int,
    ));
}


/// The scopes from the one just inside the root down to the scope at
/// position `pos`, outermost first.
pub open spec fn scopes_below_root(scopes: Seq<Scope>, pos: int) -> Seq<Scope>
    decreases pos,
{
    if 0 <= pos < scopes.len() {
        match scopes[pos].parent_at {
            Some(p) => if 0 <= p < pos {
                scopes_below_root(scopes, p as int).push(scopes[pos])
            } else {
                Seq::empty()
            },
            None => Seq::empty(),
        }
    } else {
        Seq::empty()
    }
}

/// The names of `scopes`, each of which has one.
pub open spec fn names_of_scopes(scopes: Seq<Scope>) -> Seq<Seq<char>> {
    scopes.map_values(|s: Scope| s.identifier->Some_0@)
}

proof fn lemma_scope_names_below_root(scopes: Seq<Scope>, pos: int)
    requires
        0 <= pos < scopes.len(),
        scopes_wf(scopes),
        scopes[0].identifier is None,
        forall|i: int| 0 <= i < scopes_below_root(scopes, pos).len() ==> (#[trigger] scopes_below_root(
            scopes,
            pos,
        )[i]).identifier is Some,
    ensures
        scope_names(scopes, pos) == names_of_scopes(scopes_below_root(scopes, pos)),
    decreases pos,
{
    let below = scopes_below_root(scopes, pos);
    match scopes[pos].parent_at {
        Some(p) => if 0 <= p < pos {
            let above = scopes_below_root(scopes, p as int);
            assert(below == above.push(scopes[pos]));
            assert forall|i: int| 0 <= i < above.len() implies (#[trigger] above[i]).identifier is Some by {
                assert(below[i] == above[i]);
            }
            lemma_scope_names_below_root(scopes, p as int);
            assert(below[below.len() - 1] == scopes[pos]);
            assert(scopes[pos].identifier is Some);
            assert(scope_names(scopes, pos) == scope_names(scopes, p as int).push(scopes[pos].identifier->Some_0@));
            assert(names_of_scopes(below) =~= names_of_scopes(above).push(scopes[pos].identifier->Some_0@));
        } else {
        },
        None => {
            assert(pos == 0);
            assert(names_of_scopes(below) =~= Seq::<Seq<char>>::empty());
        },
    }
}

/// With no qualifying names pending, an unnamed root and every scope from
/// the one just inside the root down to the current one named, the fully
/// qualified name of a name declared in the current scope is the file,
/// then `::` and the name of each of those scopes, outermost first, then
/// `::` and the name.
pub proof fn law_fqn_of_named_scopes(t: SymbolTable, ident: Seq<char>)
    requires
        t.wf(),
        t.fqn_parts@.len() == 0,
        t.scopes@[0].identifier is None,
        forall|i: int| 0 <= i < scopes_below_root(t.scopes@, t.current as int).len() ==> (#[trigger] scopes_below_root(
            t.scopes@,
            t.current as int,
        )[i]).identifier is Some,
    ensures
        t.fqn_for(ident) == t.file@ + qualified(names_of_scopes(scopes_below_root(t.scopes@, t.current as int)))
            + seq![':', ':'] + ident,
{
    law_fqn_of_scopes(t, ident);
    lemma_scope_names_below_root(t.scopes@, t.current as int);
}

/// How many of the first `k` calls add an import.
pub open spec fn import_calls(calls: Seq<TableCall>, k: int) -> nat
    decreases k,
{
    if k <= 0 {
        0
    } else {
        import_calls(calls, k - 1) + if calls[k - 1] is AddImport {
            1nat
        } else {
            0nat
        }
    }
}

/// How many imports the first `k` calls add to the scopes before `n`.
spec fn into_total(ts: Seq<SymbolTable>, calls: Seq<TableCall>, n: int, k: int) -> nat
    decreases n,
{
    if n <= 0 {
        0
    } else {
        into_total(ts, calls, n - 1, k) + imports_into(ts, calls, n - 1, k).len()
    }
}

/// How many imports the scopes before `n` hold.
spec fn scopes_total(scopes: Seq<Scope>, n: int) -> nat
    decreases n,
{
    if n <= 0 {
        0
    } else {
        scopes_total(scopes, n - 1) + scopes[n - 1].imports@.len()
    }
}

proof fn lemma_all_imports_len(scopes: Seq<Scope>)
    ensures
        all_imports_of(scopes).len() == scopes_total(scopes, scopes.len() as int),
    decreases scopes.len(),
{
    if scopes.len() > 0 {
        let rest = scopes.drop_last();
        lemma_all_imports_len(rest);
        lemma_scopes_total_prefix(scopes, rest, rest.len() as int);
    }
}

proof fn lemma_scopes_total_prefix(a: Seq<Scope>, b: Seq<Scope>, n: int)
    requires
        0 <= n <= b.len(),
        b.len() <= a.len(),
        forall|i: int| 0 <= i < b.len() ==> #[trigger] b[i] == a[i],
    ensures
        scopes_total(a, n) == scopes_total(b, n),
    decreases n,
{
    if n > 0 {
        lemma_scopes_total_prefix(a, b, n - 1);
    }
}

proof fn lemma_scopes_total_into(ts: Seq<SymbolTable>, calls: Seq<TableCall>, k: int, n: int)
    requires
        0 <= n <= ts[k].scopes@.len(),
        forall|id: int| 0 <= id < ts[k].scopes@.len() ==> (#[trigger] ts[k].scopes@[id]).imports@ == imports_into(ts, calls, id, k),
    ensures
        scopes_total(ts[k].scopes@, n) == into_total(ts, calls, n, k),
    decreases n,
{
    if n > 0 {
        lemma_scopes_total_into(ts, calls, k, n - 1);
        assert(ts[k].scopes@[n - 1].imports@ == imports_into(ts, calls, n - 1, k));
    }
}

proof fn lemma_into_total_step(ts: Seq<SymbolTable>, calls: Seq<TableCall>, n: int, k: int)
    requires
        0 <= k < calls.len(),
        0 <= n,
    ensures
        into_total(ts, calls, n, k + 1) == into_total(ts, calls, n, k) + if calls[k] is AddImport && 0 <= ts[k].current < n {
            1nat
        } else {
            0nat
        },
    decreases n,
{
    if n > 0 {
        lemma_into_total_step(ts, calls, n - 1, k);
    }
}

proof fn lemma_into_total(ts: Seq<SymbolTable>, calls: Seq<TableCall>, n: int, k: int)
    requires
        0 <= k <= calls.len(),
        0 <= n,
        forall|j: int| 0 <= j < k ==> (#[trigger] ts[j]).current < n,
    ensures
        into_total(ts, calls, n, k) == import_calls(calls, k),
    decreases k,
{
    if k == 0 {
        lemma_into_total_zero(ts, calls, n);
    } else {
        lemma_into_total(ts, calls, n, k - 1);
        lemma_into_total_step(ts, calls, n, k - 1);
        assert(ts[k - 1].current < n);
    }
}

proof fn lemma_into_total_zero(ts: Seq<SymbolTable>, calls: Seq<TableCall>, n: int)
    ensures
        into_total(ts, calls, n, 0) == 0,
    decreases n,
{
    if n > 0 {
        lemma_into_total_zero(ts, calls, n - 1);
    }
}

/// Over any sequence of calls on a table made by `new`, the table holds as
/// many imports, all scopes together, as calls added.
pub proof fn law_import_count(ts: Seq<SymbolTable>, calls: Seq<TableCall>)
    requires
        history(ts, calls),
    ensures
        all_imports_of(ts.last().scopes@).len() == import_calls(calls, calls.len() as int),
{
    let k = calls.len() as int;
    lemma_history_upto(ts, calls, k);
    lemma_history_scopes_grow(ts, calls, k);
    assert(ts.last() == ts[k]);
    let n = ts[k].scopes@.len() as int;
    lemma_all_imports_len(ts[k].scopes@);
    lemma_scopes_total_into(ts, calls, k, n);
    assert forall|j: int| 0 <= j < k implies (#[trigger] ts[j]).current < n by {
        assert(ts[j].current < ts[j].scopes@.len() && ts[j].scopes@.len() <= ts[k].scopes@.len());
    }
    lemma_into_total(ts, calls, n, k);
}

/// An export clause exports every name it lists: for each name, the
/// symbol a lookup of it from the current scope finds is marked exported
/// (a type alias among them then counts as exported, with its fully
/// qualified name unchanged), and no other symbol changes.
pub proof fn law_export_clause_exports_every_name(c0: ParserContext, c1: ParserContext, node: int, j: int)
    requires
        c0.wf(),
        c0.tree.kind_of(node) == "export_clause"@,
        statement_read(c0, c1, node),
        0 <= j < exported_names(c0, node, c0.tree.child_count(node)).len(),
    ensures
        ({
            let name = exported_names(c0, node, c0.tree.child_count(node))[j];
            let t0 = c0.symbol_table;
            let t1 = c1.symbol_table;
            &&& t1.symbols@.len() == t0.symbols@.len()
            &&& match t0.lookup_index(name, t0.current_id() as int) {
                Some(i) => {
                    &&& 0 <= i < t0.symbols@.len()
                    &&& t0.symbols@[i].kind is TypeAlias ==> exported(t1.symbols@[i])
                    &&& t1.symbols@[i].fqn == t0.symbols@[i].fqn
                    &&& kind_identifier(t1.symbols@[i].kind) == Some(name)
                },
                None => true,
            }
            &&& forall|k: int| 0 <= k < t0.symbols@.len() ==> #[trigger] t1.symbols@[k] == t0.symbols@[k]
                || t1.symbols@[k] == mark_exported(t0.symbols@[k])
        }),
{
    reveal_strlit("export_clause");
    reveal_strlit("function_declaration");
    reveal_strlit("type_alias_declaration");
    reveal_strlit("import_statement");
    assert("export_clause"@.len() == 13);
    assert("function_declaration"@.len() == 20);
    assert("type_alias_declaration"@.len() == 22);
    assert("import_statement"@.len() == 16);
    let names = exported_names(c0, node, c0.tree.child_count(node));
    let name = names[j];
    let t0 = c0.symbol_table;
    lemma_lookup_from_found(t0.scopes@, t0.symbols@, name, t0.current_id() as int);
    if let Some(i) = t0.lookup_index(name, t0.current_id() as int) {
        assert(c1.symbol_table.symbols@[i] == mark_exported(t0.symbols@[i]));
    }
}

pub proof fn lemma_first_import_names(imports: Seq<Import>, name: Seq<char>)
    ensures
        first_import(imports, name) matches Some(i) ==> views(i.names@).contains(name),
    decreases imports.len(),
{
    if imports.len() > 0 && !views(imports[0].names@).contains(name) {
        lemma_first_import_names(imports.drop_first(), name);
    }
}

proof fn lemma_import_for_names(scopes: Seq<Scope>, name: Seq<char>, id: int)
    ensures
        import_for(scopes, name, id) matches Some(i) ==> views(i.names@).contains(name),
    decreases id,
{
    if 0 <= id < scopes.len() {
        lemma_first_import_names(scopes[id].imports@, name);
        match scopes[id].parent_at {
            Some(p) => if 0 <= p < id {
                lemma_import_for_names(scopes, name, p as int);
            },
            None => {},
        }
    }
}

proof fn lemma_first_table_names(tables: Seq<&SymbolTable>, file: Seq<char>, source: Seq<char>)
    ensures
        first_table(tables, file, source) matches Some(k) ==> 0 <= k < tables.len() && import_names_file(
            file,
            source,
            tables[k].file@,
        ),
    decreases tables.len(),
{
    if tables.len() > 0 && !import_names_file(file, source, tables[0].file@) {
        lemma_first_table_names(tables.drop_first(), file, source);
    }
}

/// A name used in a file resolves through an import only to a symbol
/// declared under that name and exported by a table whose file the
/// import naming it names, and to that symbol's fully qualified name.
pub proof fn law_imported_names_resolve_to_exported_symbols(
    t: SymbolTable,
    tables: Seq<&SymbolTable>,
    name: Seq<char>,
    scope: int,
)
    ensures
        imported_fqn(t, tables, name, scope) matches Some(f) ==> exists|imp: Import, k: int, j: int|
            #![trigger tables[k].symbols@[j], imp.source]
            {
                &&& views(imp.names@).contains(name)
                &&& 0 <= k < tables.len()
                &&& import_names_file(t.file@, imp.source@, tables[k].file@)
                &&& 0 <= j < tables[k].symbols@.len()
                &&& kind_identifier(tables[k].symbols@[j].kind) == Some(name)
                &&& exported(tables[k].symbols@[j])
                &&& tables[k].symbols@[j].fqn == f
            },
{
    if let Some(p) = position_of(t.scopes@, scope) {
        lemma_import_for_names(t.scopes@, name, p);
        if let Some(imp) = import_for(t.scopes@, name, p) {
            lemma_first_table_names(tables, t.file@, imp.source@);
            if let Some(k) = first_table(tables, t.file@, imp.source@) {
                let tk = tables[k];
                lemma_lookup_from_found(tk.scopes@, tk.symbols@, name, tk.scopes@[0].id as int);
                if let Some(j) = tk.lookup_index(name, tk.scopes@[0].id as int) {
                    if exported(tk.symbols@[j]) {
                        assert(tables[k].symbols@[j] == tk.symbols@[j]);
                        assert(imp.source == imp.source);
                    }
                }
            }
        }
    }
}

} // verus!
