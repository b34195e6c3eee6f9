//! The entities that Python symbols are described by.
use vstd::prelude::*;
use crate::common::{identity_view, opt_seq, Entity, Identity, IdentitySpec};
use crate::py::symbol::{Class, Function, Location, Parameter, Symbol, SymbolContext, SymbolKind};

verus! {

/// The language every Python entity is marked with.
pub open spec fn py_language() -> Seq<char> {
    "py"@
}

pub open spec fn doc_text(d: Option<String>) -> Seq<char> {
    match d {
        Some(s) => s@,
        None => Seq::empty(),
    }
}

/// `e` describes a definition of kind `kind` named `title` and `fqn`, with
/// `description`, at `loc`, shown as a method's member where it has a
/// context, with no members and no metadata.
pub open spec fn describes_definition(
    e: Entity,
    title: Seq<char>,
    description: Seq<char>,
    kind: Seq<char>,
    fqn: Seq<char>,
    loc: Location,
    context: Option<SymbolContext>,
) -> bool {
    &&& opt_seq(e.title) == Some(title)
    &&& e.description@ == description
    &&& e.kind@ == kind
    &&& identity_view(e.identity) == IdentitySpec::FQN(fqn)
    &&& e.members@.len() == 0
    &&& opt_seq(e.member_context) == (if context is Some { Some("method"@) } else { None::<Seq<char>> })
    &&& e.language@ == py_language()
    &&& e.source.file == loc.file
    &&& e.source.start_offset_bytes == loc.start_offset_bytes
    &&& e.source.end_offset_bytes == loc.end_offset_bytes
    &&& e.source.repository is None
    &&& e.meta@.len() == 0
}

fn definition(
    title: &String,
    documentation: &Option<String>,
    kind: &str,
    fqn: &str,
    loc: &Location,
    context: Option<SymbolContext>,
) -> (e: Entity)
    ensures
        describes_definition(e, title@, doc_text(*documentation), kind@, fqn@, *loc, context),
{
    let description = match documentation {
        Some(d) => d.clone(),
        None => String::new(),
    };
    let member_context = match context {
        Some(_) => Some("method".to_owned()),
        None => None,
    };
    Entity {
        title: Some(title.clone()),
        description,
        kind: kind.to_owned(),
        identity: Identity::FQN(fqn.to_owned()),
        members: Vec::new(),
        member_context,
        language: "py".to_owned(),
        source: loc.as_source(),
        meta: Vec::new(),
    }
}

impl Function {
    /// The entity describing this function, found at `loc` and named `fqn`.
    pub fn as_entity(&self, loc: &Location, fqn: &str, context: Option<SymbolContext>) -> (e: Entity)
        ensures
            describes_definition(e, self.title@, doc_text(self.documentation), "function"@, fqn@, *loc, context),
    {
        definition(&self.title, &self.documentation, "function", fqn, loc, context)
    }
}

impl Class {
    /// The entity describing this class, found at `loc` and named `fqn`.
    pub fn as_entity(&self, loc: &Location, fqn: &str, context: Option<SymbolContext>) -> (e: Entity)
        ensures
            describes_definition(e, self.title@, doc_text(self.documentation), "class"@, fqn@, *loc, context),
    {
        definition(&self.title, &self.documentation, "class", fqn, loc, context)
    }
}

impl Parameter {
    /// The entity describing this parameter, found at `loc` and named
    /// `fqn`; a parameter with a declared type is not described.
    pub fn as_entity(&self, loc: &Location, fqn: &str, context: Option<SymbolContext>) -> (e: Entity)
        requires
            self.members@.len() == 0,
        ensures
            describes_definition(e, self.title@, doc_text(self.documentation), "parameter"@, fqn@, *loc, context),
    {
        definition(&self.title, &self.documentation, "parameter", fqn, loc, context)
    }
}

/// Whether a symbol has an entity: types and parameters with a declared
/// type have none.
pub open spec fn describable(s: Symbol) -> bool {
    match s.kind {
        SymbolKind::Class(_) | SymbolKind::Function(_) => s.fqn is Some,
        SymbolKind::Parameter(p) => s.fqn is Some && p.members@.len() == 0,
        SymbolKind::Type(_) => false,
    }
}

/// The kind an entity of a symbol of `kind` has.
pub open spec fn entity_kind(kind: SymbolKind) -> Seq<char> {
    match kind {
        SymbolKind::Class(_) => "class"@,
        SymbolKind::Function(_) => "function"@,
        SymbolKind::Parameter(_) => "parameter"@,
        SymbolKind::Type(_) => "type"@,
    }
}

pub open spec fn kind_docs(kind: SymbolKind) -> Seq<char> {
    match kind {
        SymbolKind::Class(c) => doc_text(c.documentation),
        SymbolKind::Function(f) => doc_text(f.documentation),
        SymbolKind::Parameter(p) => doc_text(p.documentation),
        SymbolKind::Type(_) => Seq::empty(),
    }
}

impl Symbol {
    /// The entity describing this symbol.
    pub fn as_entity(&self) -> (e: Entity)
        requires
            describable(*self),
        ensures
            describes_definition(
                e,
                crate::py::symbol::kind_title(self.kind),
                kind_docs(self.kind),
                entity_kind(self.kind),
                self.fqn->Some_0@,
                self.loc,
                self.context,
            ),
    {
        let fqn = match &self.fqn {
            Some(f) => f.as_str(),
            None => "",
        };
        match &self.kind {
            SymbolKind::Class(c) => c.as_entity(&self.loc, fqn, self.context),
            SymbolKind::Function(f) => f.as_entity(&self.loc, fqn, self.context),
            SymbolKind::Parameter(p) => p.as_entity(&self.loc, fqn, self.context),
            SymbolKind::Type(_) => {
                assert(false);
                Entity {
                    title: None,
                    description: String::new(),
                    kind: String::new(),
                    identity: Identity::Anonymous,
                    members: Vec::new(),
                    member_context: None,
                    language: String::new(),
                    source: self.loc.as_source(),
                    meta: Vec::new(),
                }
            },
        }
    }
}

/// The entity describing a Python definition names what it is: `class`
/// for a class, `function` for a function and `parameter` for a
/// parameter, titled by the definition's name, carrying its docstring,
/// and identified by its fully qualified name.
pub proof fn law_entity_kind_names_the_definition(s: Symbol, e: Entity)
    requires
        describable(s),
        describes_definition(
            e,
            crate::py::symbol::kind_title(s.kind),
            kind_docs(s.kind),
            entity_kind(s.kind),
            s.fqn->Some_0@,
            s.loc,
            s.context,
        ),
    ensures
        e.language@ == "py"@,
        s.fqn matches Some(f) && identity_view(e.identity) == IdentitySpec::FQN(f@),
        match s.kind {
            SymbolKind::Class(c) => e.kind@ == "class"@ && e.description@ == doc_text(c.documentation),
            SymbolKind::Function(f) => e.kind@ == "function"@ && e.description@ == doc_text(f.documentation),
            SymbolKind::Parameter(p) => e.kind@ == "parameter"@ && e.description@ == doc_text(p.documentation),
            SymbolKind::Type(_) => false,
        },
{
}

} // verus!
