//! The Python front end as a whole: files in, entities out.
use vstd::prelude::*;
use crate::common::{DossierError, Entity};
use crate::py::entity::{describable, describes_definition, entity_kind, kind_docs};
use crate::py::parse::{module_accepted, module_read, module_rejected, parse_source};
use crate::py::symbol::{kind_title, Symbol};

verus! {

#[derive(Debug, Clone, PartialEq, Default)]
pub struct PythonParser {}

/// `es` describes `symbols`, one by one, each a class or a function
/// defined at the top level of one of `files`.
pub open spec fn describes_files(files: Seq<(String, String)>, symbols: Seq<Symbol>, es: Seq<Entity>) -> bool {
    &&& exists|per_file: Seq<Seq<Symbol>>| #[trigger] read_files(files, per_file) && symbols == per_file.flatten()
    &&& symbols.len() == es.len()
    &&& forall|i: int| 0 <= i < symbols.len() ==> crate::py::parse::top_level(#[trigger] symbols[i])
        && exists|f: int| 0 <= f < files.len() && symbols[i].loc.file@ == files[f].0@
    &&& forall|i: int| 0 <= i < es.len() ==> describes_definition(
        #[trigger] es[i],
        kind_title(symbols[i].kind),
        kind_docs(symbols[i].kind),
        entity_kind(symbols[i].kind),
        symbols[i].fqn->Some_0@,
        symbols[i].loc,
        symbols[i].context,
    )
}

/// Whether `per_file` are the symbols of `files`, file by file.
pub open spec fn read_files(files: Seq<(String, String)>, per_file: Seq<Seq<Symbol>>) -> bool {
    &&& per_file.len() == files.len()
    &&& forall|f: int| 0 <= f < files.len() ==> module_read(files[f].0@, files[f].1@, #[trigger] per_file[f])
}

/// `es` describes classes and functions defined at the top level of
/// `files`, one by one.
pub open spec fn describes_some_files(files: Seq<(String, String)>, es: Seq<Entity>) -> bool {
    exists|symbols: Seq<Symbol>| #[trigger] describes_files(files, symbols, es)
}

impl PythonParser {
    pub fn new() -> (r: Self)
        ensures
            r == (PythonParser {}),
    {
        PythonParser {}
    }

    /// The entities of the given symbols, in order.
    pub fn entities_of(symbols: &Vec<Symbol>) -> (r: Vec<Entity>)
        requires
            forall|i: int| 0 <= i < symbols@.len() ==> describable(#[trigger] symbols@[i]),
        ensures
            r@.len() == symbols@.len(),
            forall|i: int| 0 <= i < r@.len() ==> describes_definition(
                #[trigger] r@[i],
                kind_title(symbols@[i].kind),
                kind_docs(symbols@[i].kind),
                entity_kind(symbols@[i].kind),
                symbols@[i].fqn->Some_0@,
                symbols@[i].loc,
                symbols@[i].context,
            ),
    {
        let mut out: Vec<Entity> = Vec::new();
        let mut i: usize = 0;
        while i < symbols.len()
            invariant
                i <= symbols@.len(),
                out@.len() == i,
                forall|j: int| 0 <= j < symbols@.len() ==> describable(#[trigger] symbols@[j]),
                forall|j: int| 0 <= j < i ==> describes_definition(
                    #[trigger] out@[j],
                    kind_title(symbols@[j].kind),
                    kind_docs(symbols@[j].kind),
                    entity_kind(symbols@[j].kind),
                    symbols@[j].fqn->Some_0@,
                    symbols@[j].loc,
                    symbols@[j].context,
                ),
            decreases symbols@.len() - i,
        {
            out.push(symbols[i].as_entity());
            i += 1;
        }
        out
    }

    /// The entities documented by the Python files given by path and text:
    /// the classes and functions each file defines at its top level, file
    /// by file.
    pub fn parse_sources(&self, files: &[(String, String)]) -> (r: Result<Vec<Entity>, DossierError>)
        ensures
            r matches Ok(es) ==> describes_some_files(files@, es@),
        files@.len() == 0 ==> (r matches Ok(es) && es@.len() == 0),
        r matches Err(e) ==> exists|i: int| 0 <= i < files@.len() && module_rejected(
            #[trigger] files@[i].0@,
            files@[i].1@,
            e,
        ),
        (forall|i: int| 0 <= i < files@.len() ==> module_accepted(#[trigger] files@[i].0@, files@[i].1@)) ==> r is Ok,
    {
        let mut symbols: Vec<Symbol> = Vec::new();
        let ghost mut per_file: Seq<Seq<Symbol>> = Seq::empty();
        let mut i: usize = 0;
        proof {
            assert(per_file.flatten() =~= Seq::<Symbol>::empty());
        }
        while i < files.len()
            invariant
                i <= files@.len(),
                read_files(files@.take(i as int), per_file),
                symbols@ == per_file.flatten(),
                forall|j: int| 0 <= j < symbols@.len() ==> crate::py::parse::top_level(#[trigger] symbols@[j])
                    && exists|f: int| 0 <= f < files@.len() && symbols@[j].loc.file@ == files@[f].0@,
            decreases files@.len() - i,
        {
            let (path, code) = &files[i];
            let mut found = match parse_source(path.as_str(), code.as_str()) {
                Ok(v) => v,
                Err(e) => {
                    assert(module_rejected(files@[i as int].0@, files@[i as int].1@, e));
                    assert(!module_accepted(files@[i as int].0@, files@[i as int].1@));
                    return Err(e);
                },
            };
            let ghost prev = symbols@;
            let ghost fi = i as int;
            let ghost got = found@;
            symbols.append(&mut found);
            proof {
                per_file.lemma_flatten_push(got);
                per_file = per_file.push(got);
                assert(files@.take(fi + 1).drop_last() =~= files@.take(fi));
                assert forall|f: int| 0 <= f < fi + 1 implies module_read(files@.take(fi + 1)[f].0@, files@.take(fi + 1)[f].1@, #[trigger] per_file[f]) by {
                    if f < fi {
                        assert(files@.take(fi + 1)[f] == files@.take(fi)[f]);
                    }
                }
                assert forall|j: int| 0 <= j < symbols@.len() implies crate::py::parse::top_level(#[trigger] symbols@[j])
                    && exists|f: int| 0 <= f < files@.len() && symbols@[j].loc.file@ == files@[f].0@ by {
                    if j >= prev.len() {
                        assert(symbols@[j].loc.file@ == files@[fi].0@);
                    } else {
                        assert(symbols@[j] == prev[j]);
                    }
                }
            }
            i += 1;
        }
        proof {
            assert forall|j: int| 0 <= j < symbols@.len() implies describable(#[trigger] symbols@[j]) by {
                assert(crate::py::parse::top_level(symbols@[j]));
            }
        }
        let es = Self::entities_of(&symbols);
        let ghost sv = symbols@;
        proof {
            assert(files@.take(files@.len() as int) =~= files@);
            assert(read_files(files@, per_file));
            assert(describes_files(files@, sv, es@));
            assert(describes_some_files(files@, es@));
        }
        Ok(es)
    }
}

} // verus!
