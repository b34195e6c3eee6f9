//! The entities that declarations of this front end are described by.
use vstd::prelude::*;
use crate::common::{identity_view, opt_seq, Entity, Identity, IdentitySpec};
use crate::ts2::function::Function;
use crate::ts2::symbols::{Source, Symbol, SymbolKind};
use crate::ts2::type_alias::TypeAlias;

verus! {

/// `e` describes a declaration of kind `kind` named `title`, with
/// `description`, found at `source` in `file` and named `fqn`: no
/// members, no context and no metadata.
pub open spec fn describes_declaration(
    e: Entity,
    title: Seq<char>,
    description: Seq<char>,
    kind: Seq<char>,
    file: Seq<char>,
    source: Source,
    fqn: Seq<char>,
) -> bool {
    &&& opt_seq(e.title) == Some(title)
    &&& e.description@ == description
    &&& e.kind@ == kind
    &&& identity_view(e.identity) == IdentitySpec::FQN(fqn)
    &&& e.members@.len() == 0
    &&& e.member_context is None
    &&& e.language@ == "ts"@
    &&& e.source.file@ == file
    &&& e.source.start_offset_bytes == source.offset_start_bytes
    &&& e.source.end_offset_bytes == source.offset_end_bytes
    &&& e.source.repository is None
    &&& e.meta@.len() == 0
}

/// The documentation of a declaration, empty where it has none.
pub open spec fn doc_or_empty(d: Option<String>) -> Seq<char> {
    match d {
        Some(s) => s@,
        None => Seq::empty(),
    }
}

fn declaration(
    title: String,
    description: String,
    kind: &str,
    file: &str,
    source: &Source,
    fqn: &str,
) -> (e: Entity)
    ensures
        describes_declaration(e, title@, description@, kind@, file@, *source, fqn@),
{
    Entity {
        title: Some(title),
        description,
        kind: kind.to_owned(),
        identity: Identity::FQN(fqn.to_owned()),
        members: Vec::new(),
        member_context: None,
        language: "ts".to_owned(),
        source: crate::common::Source {
            file: file.to_owned(),
            start_offset_bytes: source.offset_start_bytes,
            end_offset_bytes: source.offset_end_bytes,
            repository: None,
        },
        meta: Vec::new(),
    }
}

impl Function {
    /// The entity describing this function, declared at `source` in `file`
    /// under `fqn`.
    pub fn as_entity(&self, source: &Source, file: &str, fqn: &str) -> (e: Entity)
        ensures
            describes_declaration(
                e,
                self.identifier@,
                doc_or_empty(self.documentation),
                "function"@,
                file@,
                *source,
                fqn@,
            ),
    {
        let description = match &self.documentation {
            Some(d) => d.clone(),
            None => String::new(),
        };
        declaration(self.identifier.clone(), description, "function", file, source, fqn)
    }
}

impl TypeAlias {
    /// The entity describing this alias, declared at `source` in `file`
    /// under `fqn`.
    pub fn as_entity(&self, source: &Source, file: &str, fqn: &str) -> (e: Entity)
        ensures
            describes_declaration(e, self.identifier@, Seq::empty(), "type_alias"@, file@, *source, fqn@),
    {
        declaration(self.identifier.clone(), String::new(), "type_alias", file, source, fqn)
    }
}

impl Symbol {
    /// The entity describing this symbol, declared in `file` under `fqn`;
    /// a bare type is described by nothing of its own, and is not asked.
    pub fn as_entity(&self, file: &str, fqn: &str) -> (e: Entity)
        requires
            !(self.kind is Type),
        ensures
            match self.kind {
                SymbolKind::Function(f) => describes_declaration(
                    e,
                    f.identifier@,
                    doc_or_empty(f.documentation),
                    "function"@,
                    file@,
                    self.source,
                    fqn@,
                ),
                SymbolKind::TypeAlias(a) => describes_declaration(
                    e,
                    a.identifier@,
                    Seq::empty(),
                    "type_alias"@,
                    file@,
                    self.source,
                    fqn@,
                ),
                SymbolKind::Type(_) => false,
            },
    {
        match &self.kind {
            SymbolKind::Function(f) => f.as_entity(&self.source, file, fqn),
            SymbolKind::TypeAlias(a) => a.as_entity(&self.source, file, fqn),
            SymbolKind::Type(_) => {
                assert(false);
                declaration(String::new(), String::new(), "type", file, &self.source, fqn)
            },
        }
    }
}

} // verus!
