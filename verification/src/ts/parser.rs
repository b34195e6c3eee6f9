//! The TypeScript front end as a whole: files in, entities out.
use vstd::prelude::*;
use crate::common::{DossierError, Entity};
use crate::ts::declarations::{parse_source, source_accepted, source_read, source_rejected};
use crate::ts::entity::describes;
use crate::ts::symbol::{retargeted_all, Symbol, SymbolIds};
use crate::ts::symbol_table::{imported_targets, local_targets, ScopeIds, SymbolTable};

verus! {

broadcast use vstd::seq_lib::group_seq_properties;

#[derive(Debug, Clone, PartialEq, Default)]
pub struct TypeScriptParser {}

/// The tables that the table processed at step `j` of the cross-file
/// resolution is resolved against: the tables not yet processed, in their
/// order, then those already processed, in the order they were.
pub open spec fn others_at(pending: Seq<SymbolTable>, done: Seq<SymbolTable>) -> Seq<SymbolTable> {
    pending + done
}

/// The symbols of `tables`, table by table.
pub open spec fn symbols_of(tables: Seq<SymbolTable>) -> Seq<Symbol>
    decreases tables.len(),
{
    if tables.len() == 0 {
        Seq::empty()
    } else {
        symbols_of(tables.drop_last()) + tables.last().symbols@
    }
}

/// The references of a sequence of tables.
pub open spec fn refs(v: Seq<&SymbolTable>) -> Seq<SymbolTable> {
    v.map_values(|t: &SymbolTable| *t)
}

/// `local` is `parsed` with types resolved within each table.
pub open spec fn locally_resolved(parsed: Seq<SymbolTable>, local: Seq<SymbolTable>) -> bool {
    &&& local.len() == parsed.len()
    &&& forall|i: int| 0 <= i < parsed.len() ==> {
        &&& (#[trigger] local[i]).wf()
        &&& local[i].same_but_symbols(parsed[i])
        &&& retargeted_all(parsed[i].symbols@, local[i].symbols@, local_targets(parsed[i]))
    }
}

/// `window` is `local` resolved across files: the tables taken from the
/// last to the first, each resolved against those not yet taken, in their
/// order, then those already taken, in the order they were.
pub open spec fn resolved_across(local: Seq<SymbolTable>, window: Seq<SymbolTable>) -> bool {
    &&& window.len() == local.len()
    &&& forall|j: int| 0 <= j < window.len() ==> {
        let orig = local[local.len() - 1 - j];
        &&& (#[trigger] window[j]).wf()
        &&& window[j].same_but_symbols(orig)
        &&& resolved_against(orig, window[j], others_at(local.take(local.len() - 1 - j), window.take(j)))
    }
}

/// Whether `others` holds, for every table of `tables` but the one at
/// `skip`, a table of the same file with the same scopes and imports.
pub open spec fn holds_every_other(tables: Seq<SymbolTable>, skip: int, others: Seq<SymbolTable>) -> bool {
    forall|k: int| 0 <= k < tables.len() && k != skip ==> holds_copy(others, #[trigger] tables[k])
}

/// Whether `others` holds a table of the same file as `t`, with the same
/// scopes and imports.
pub open spec fn holds_copy(others: Seq<SymbolTable>, t: SymbolTable) -> bool {
    exists|m: int| 0 <= m < others.len() && (#[trigger] others[m]).same_but_symbols(t)
}

/// Whether `resolved` is `orig` with its types resolved through imports
/// against the tables `others`.
pub open spec fn resolved_against(orig: SymbolTable, resolved: SymbolTable, others: Seq<SymbolTable>) -> bool {
    retargeted_all(orig.symbols@, resolved.symbols@, imported_targets(orig, table_refs(others)))
}

/// References to each of `tables`, in order.
pub open spec fn table_refs<'a>(tables: Seq<SymbolTable>) -> Seq<&'a SymbolTable> {
    tables.map_values(|t: SymbolTable| &t)
}

/// Cross-file resolution resolves each table against every other table of
/// the input, whatever the order of the files: for each table taken, there
/// are tables it is resolved against through imports, and among them, for
/// every other file of the input, that file's table, resolved already or
/// not (its file, scopes and imports as parsed).
pub proof fn law_resolution_sees_every_other_file(local: Seq<SymbolTable>, window: Seq<SymbolTable>, j: int)
    requires
        resolved_across(local, window),
        0 <= j < local.len(),
    ensures
        exists|others: Seq<SymbolTable>|
            #[trigger] resolved_against(local[local.len() - 1 - j], window[j], others) && holds_every_other(
                local,
                local.len() - 1 - j,
                others,
            ),
{
    let n = local.len();
    let others = others_at(local.take(n - 1 - j), window.take(j));
    assert(resolved_against(local[n - 1 - j], window[j], others));
    lemma_others_hold_every_other(local, window, j);
}

proof fn lemma_others_hold_every_other(local: Seq<SymbolTable>, window: Seq<SymbolTable>, j: int)
    requires
        window.len() == local.len(),
        forall|jj: int| 0 <= jj < window.len() ==> (#[trigger] window[jj]).same_but_symbols(local[local.len() - 1 - jj]),
        0 <= j < local.len(),
    ensures
        holds_every_other(local, local.len() - 1 - j, others_at(local.take(local.len() - 1 - j), window.take(j))),
{
    let n = local.len();
    let others = others_at(local.take(n - 1 - j), window.take(j));
    assert forall|k: int| 0 <= k < n && k != n - 1 - j implies holds_copy(others, #[trigger] local[k]) by {
        if k < n - 1 - j {
            assert(others[k] == local[k]);
        } else {
            let jj = n - 1 - k;
            let m = (n - 1 - j) + jj;
            assert(others[m] == window[jj]);
            assert(window[jj].same_but_symbols(local[n - 1 - jj]));
        }
    }
    assert(holds_every_other(local, n - 1 - j, others));
}

impl TypeScriptParser {
    pub fn new() -> (r: Self)
        ensures
            r == (TypeScriptParser {}),
    {
        TypeScriptParser {}
    }

    /// Resolves types within each table, as `resolve_types` does.
    pub fn resolve_each(tables: &mut Vec<SymbolTable>)
        requires
            forall|i: int| 0 <= i < old(tables)@.len() ==> (#[trigger] old(tables)@[i]).wf(),
        ensures
            locally_resolved(old(tables)@, final(tables)@),
    {
        let mut i: usize = 0;
        while i < tables.len()
            invariant
                tables@.len() == old(tables)@.len(),
                0 <= i <= tables@.len(),
                forall|j: int| i <= j < tables@.len() ==> #[trigger] tables@[j] == old(tables)@[j],
                forall|j: int| 0 <= j < old(tables)@.len() ==> (#[trigger] old(tables)@[j]).wf(),
                forall|j: int| 0 <= j < i ==> {
                    &&& (#[trigger] tables@[j]).wf()
                    &&& tables@[j].same_but_symbols(old(tables)@[j])
                    &&& retargeted_all(old(tables)@[j].symbols@, tables@[j].symbols@, local_targets(old(tables)@[j]))
                },
            decreases tables@.len() - i,
        {
            let ghost before = tables@;
            tables[i].resolve_types();
            proof {
                assert forall|j: int| 0 <= j < tables@.len() && j != i implies #[trigger] tables@[j] == before[j] by {}
            }
            i += 1;
        }
    }

    /// Resolves types across files: the tables are taken from the last to
    /// the first, and each is resolved against those not yet taken, in
    /// their order, then those already taken, in the order they were
    /// taken. The result holds the tables in the order they were taken.
    pub fn resolve_across(tables: Vec<SymbolTable>) -> (r: Vec<SymbolTable>)
        requires
            forall|i: int| 0 <= i < tables@.len() ==> (#[trigger] tables@[i]).wf(),
        ensures
            resolved_across(tables@, r@),
    {
        let ghost all = tables@;
        let mut pending = tables;
        let mut window: Vec<SymbolTable> = Vec::new();
        while pending.len() > 0
            invariant
                pending@ == all.take(pending@.len() as int),
                pending@.len() + window@.len() == all.len(),
                forall|i: int| 0 <= i < all.len() ==> (#[trigger] all[i]).wf(),
                forall|j: int| 0 <= j < window@.len() ==> {
                    let orig = all[all.len() - 1 - j];
                    &&& (#[trigger] window@[j]).wf()
                    &&& window@[j].same_but_symbols(orig)
                    &&& resolved_against(orig, window@[j], others_at(all.take(all.len() - 1 - j), window@.take(j)))
                },
            decreases pending@.len(),
        {
            let mut table = pending.pop().unwrap();
            let ghost orig = table;
            let ghost j = window@.len() as int;
            let mut others: Vec<&SymbolTable> = Vec::new();
            let mut k: usize = 0;
            while k < pending.len()
                invariant
                    k <= pending@.len(),
                    refs(others@) == pending@.take(k as int),
                    forall|i: int| 0 <= i < pending@.len() ==> (#[trigger] pending@[i]).wf(),
                decreases pending@.len() - k,
            {
                let ghost prev = others@;
                others.push(&pending[k]);
                assert(refs(others@) =~= refs(prev).push(pending@[k as int]));
                assert(pending@.take(k + 1) =~= pending@.take(k as int).push(pending@[k as int]));
                k += 1;
            }
            let mut w: usize = 0;
            while w < window.len()
                invariant
                    w <= window@.len(),
                    refs(others@) == pending@ + window@.take(w as int),
                decreases window@.len() - w,
            {
                let ghost prev = others@;
                others.push(&window[w]);
                assert(refs(others@) =~= refs(prev).push(window@[w as int]));
                assert(window@.take(w + 1) =~= window@.take(w as int).push(window@[w as int]));
                w += 1;
            }
            proof {
                assert(pending@.take(pending@.len() as int) =~= pending@);
                assert(window@.take(window@.len() as int) =~= window@);
                assert(pending@ =~= all.take(all.len() - 1 - j));
                assert forall|i: int| 0 <= i < others@.len() implies (#[trigger] others@[i]).wf() by {
                    assert(refs(others@)[i] == *others@[i]);
                    if i < pending@.len() {
                        assert(refs(others@)[i] == pending@[i]);
                    } else {
                        let jj = i - pending@.len();
                        assert(refs(others@)[i] == window@[jj]);
                    }
                }
                assert(others@ =~= table_refs(others_at(all.take(all.len() - 1 - j), window@.take(j)))) by {
                    assert(window@.take(j) =~= window@);
                }
            }
            table.resolve_imported_types(others.as_slice());
            let ghost prev_window = window@;
            window.push(table);
            proof {
                assert forall|jj: int| 0 <= jj < window@.len() implies window@.take(jj) == prev_window.take(jj) || jj == j by {
                    if jj < j {
                        assert(window@.take(jj) =~= prev_window.take(jj));
                    }
                }
                assert(window@.take(j) =~= prev_window);
                assert(all.take(pending@.len() as int) =~= all.take(all.len() - 1 - j));
            }
        }
        window
    }

    /// The entities describing every symbol of `tables`, table by table.
    pub fn entities_of(tables: &Vec<SymbolTable>) -> (r: Vec<Entity>)
        ensures
            r@.len() == symbols_of(tables@).len(),
            forall|i: int| 0 <= i < r@.len() ==> describes(symbols_of(tables@)[i], #[trigger] r@[i]),
    {
        let mut out: Vec<Entity> = Vec::new();
        let mut t: usize = 0;
        while t < tables.len()
            invariant
                t <= tables@.len(),
                out@.len() == symbols_of(tables@.take(t as int)).len(),
                forall|i: int| 0 <= i < out@.len() ==> describes(symbols_of(tables@.take(t as int))[i], #[trigger] out@[i]),
            decreases tables@.len() - t,
        {
            let symbols = tables[t].all_symbols();
            let ghost before = symbols_of(tables@.take(t as int));
            let mut k: usize = 0;
            while k < symbols.len()
                invariant
                    k <= symbols@.len(),
                    symbols@ == tables@[t as int].symbols@,
                    out@.len() == before.len() + k,
                    forall|i: int| 0 <= i < out@.len() ==> describes((before + symbols@)[i], #[trigger] out@[i]),
                decreases symbols@.len() - k,
            {
                let e = symbols[k].as_entity();
                out.push(e);
                k += 1;
            }
            proof {
                assert(tables@.take(t + 1).drop_last() =~= tables@.take(t as int));
            }
            t += 1;
        }
        assert(tables@.take(tables@.len() as int) =~= tables@);
        out
    }

    /// The entities documented by the TypeScript files given by path and
    /// text: every file is parsed, types are resolved within each file and
    /// then across files, and every symbol of every table is described.
    pub fn parse_sources(&self, files: &[(String, String)]) -> (r: Result<Vec<Entity>, DossierError>)
        ensures
            r matches Ok(es) ==> exists|parsed: Seq<SymbolTable>, local: Seq<SymbolTable>, window: Seq<SymbolTable>|
                {
                    &&& parsed.len() == files@.len()
                    &&& forall|i: int| 0 <= i < parsed.len() ==> source_read(files@[i].0@, files@[i].1@, #[trigger] parsed[i])
                    &&& locally_resolved(parsed, local)
                    &&& resolved_across(local, window)
                    &&& es@.len() == symbols_of(window).len()
                    &&& forall|k: int| 0 <= k < es@.len() ==> describes(symbols_of(window)[k], #[trigger] es@[k])
                },
        files@.len() == 0 ==> (r matches Ok(es) && es@.len() == 0),
        r matches Err(e) ==> exists|i: int| 0 <= i < files@.len() && source_rejected(#[trigger] files@[i].1@, e),
        (forall|i: int| 0 <= i < files@.len() ==> source_accepted(#[trigger] files@[i].1@)) ==> r is Ok,
    {
        let mut tables: Vec<SymbolTable> = Vec::new();
        let mut ids = ScopeIds::new();
        let mut symbol_ids = SymbolIds::new();
        let mut i: usize = 0;
        while i < files.len()
            invariant
                i <= files@.len(),
                tables@.len() == i,
                forall|j: int| 0 <= j < tables@.len() ==> source_read(files@[j].0@, files@[j].1@, #[trigger] tables@[j]),
            decreases files@.len() - i,
        {
            let (path, code) = &files[i];
            let table = match parse_source(path.as_str(), code.as_str(), &mut ids, &mut symbol_ids) {
                Ok(t) => t,
                Err(e) => {
                    assert(source_rejected(files@[i as int].1@, e));
                    assert(!source_accepted(files@[i as int].1@));
                    return Err(e);
                },
            };
            tables.push(table);
            i += 1;
        }
        let ghost parsed = tables@;
        Self::resolve_each(&mut tables);
        let ghost local = tables@;
        let window = Self::resolve_across(tables);
        let es = Self::entities_of(&window);
        proof {
            let w = window@;
            assert(parsed.len() == files@.len());
            assert(locally_resolved(parsed, local));
            assert(resolved_across(local, w));
        }
        Ok(es)
    }
}

} // verus!
