//! The symbols discovered in Python source code.
use vstd::prelude::*;
use crate::py::context::ParserContext;

verus! {

/// Where a symbol stands: the file, and the byte range of its node.
#[derive(Debug, Clone, PartialEq)]
pub struct Location {
    pub file: String,
    pub start_offset_bytes: usize,
    pub end_offset_bytes: usize,
}

impl Location {
    /// The location of node `node` of the tree being parsed.
    pub fn new(node: usize, ctx: &ParserContext) -> (r: Self)
        requires
            node < ctx.tree.len(),
        ensures
            r.file == ctx.file,
            r.start_offset_bytes == ctx.tree.nodes@[node as int].start_byte,
            r.end_offset_bytes == ctx.tree.nodes@[node as int].end_byte,
    {
        Location {
            file: ctx.file.clone(),
            start_offset_bytes: ctx.tree.nodes[node].start_byte,
            end_offset_bytes: ctx.tree.nodes[node].end_byte,
        }
    }

    pub fn as_source(&self) -> (r: crate::common::Source)
        ensures
            r.file == self.file,
            r.start_offset_bytes == self.start_offset_bytes,
            r.end_offset_bytes == self.end_offset_bytes,
            r.repository is None,
    {
        crate::common::Source {
            file: self.file.clone(),
            start_offset_bytes: self.start_offset_bytes,
            end_offset_bytes: self.end_offset_bytes,
            repository: None,
        }
    }
}

/// How a symbol relates to the symbol it belongs to.
#[derive(Debug, Clone, Copy, PartialEq, Eq, Structural)]
pub enum SymbolContext {
    Method,
    Parameter,
    ReturnType,
}

#[derive(Debug, PartialEq)]
pub struct Class {
    pub title: String,
    pub documentation: Option<String>,
}

#[derive(Debug, PartialEq)]
pub struct Function {
    pub title: String,
    pub documentation: Option<String>,
    pub members: Vec<Symbol>,
}

#[derive(Debug, PartialEq)]
pub struct Parameter {
    pub title: String,
    pub documentation: Option<String>,
    pub members: Vec<Symbol>,
}

#[derive(Debug, Clone, PartialEq)]
pub enum Type {
    BuiltIn(String),
    Identifier(String),
}

#[derive(Debug, PartialEq)]
pub enum SymbolKind {
    Class(Class),
    Function(Function),
    Parameter(Parameter),
    Type(Type),
}

#[derive(Debug, PartialEq)]
pub struct Symbol {
    pub kind: SymbolKind,
    pub fqn: Option<String>,
    pub loc: Location,
    pub context: Option<SymbolContext>,
}

/// The name of a type.
pub open spec fn type_title(t: Type) -> Seq<char> {
    match t {
        Type::BuiltIn(s) => s@,
        Type::Identifier(s) => s@,
    }
}

/// The name a symbol of `kind` is known by.
pub open spec fn kind_title(kind: SymbolKind) -> Seq<char> {
    match kind {
        SymbolKind::Class(c) => c.title@,
        SymbolKind::Function(f) => f.title@,
        SymbolKind::Parameter(p) => p.title@,
        SymbolKind::Type(t) => type_title(t),
    }
}

impl Type {
    pub fn identifier(&self) -> (r: &str)
        ensures
            r@ == type_title(*self),
    {
        match self {
            Type::BuiltIn(s) => s.as_str(),
            Type::Identifier(s) => s.as_str(),
        }
    }
}

impl SymbolKind {
    pub fn identifier(&self) -> (r: Option<&str>)
        ensures
            r matches Some(s) && s@ == kind_title(*self),
    {
        match self {
            SymbolKind::Class(c) => Some(c.title.as_str()),
            SymbolKind::Function(f) => Some(f.title.as_str()),
            SymbolKind::Parameter(p) => Some(p.title.as_str()),
            SymbolKind::Type(t) => Some(t.identifier()),
        }
    }
}

impl Symbol {
    /// The symbol of `kind` at `loc`, in the current context of `ctx`,
    /// named as its name is named there.
    pub fn in_context(ctx: &ParserContext, kind: SymbolKind, loc: Location) -> (r: Self)
        ensures
            r.kind == kind,
            r.loc == loc,
            r.context == ctx.top_context(),
            r.fqn matches Some(f) && f@ == ctx.fqn_for(kind_title(kind)),
    {
        let context = ctx.symbol_context();
        let fqn = match kind.identifier() {
            Some(i) => Some(ctx.construct_fqn(i)),
            None => None,
        };
        Symbol { kind, fqn, loc, context }
    }

    pub fn as_class(&self) -> (r: Option<&Class>)
        ensures
            match self.kind {
                SymbolKind::Class(c) => r == Some(&c),
                _ => r is None,
            },
    {
        match &self.kind {
            SymbolKind::Class(c) => Some(c),
            _ => None,
        }
    }

    pub fn as_function(&self) -> (r: Option<&Function>)
        ensures
            match self.kind {
                SymbolKind::Function(f) => r == Some(&f),
                _ => r is None,
            },
    {
        match &self.kind {
            SymbolKind::Function(f) => Some(f),
            _ => None,
        }
    }

    pub fn as_parameter(&self) -> (r: Option<&Parameter>)
        ensures
            match self.kind {
                SymbolKind::Parameter(p) => r == Some(&p),
                _ => r is None,
            },
    {
        match &self.kind {
            SymbolKind::Parameter(p) => Some(p),
            _ => None,
        }
    }

    pub fn as_type(&self) -> (r: Option<&Type>)
        ensures
            match self.kind {
                SymbolKind::Type(t) => r == Some(&t),
                _ => r is None,
            },
    {
        match &self.kind {
            SymbolKind::Type(t) => Some(t),
            _ => None,
        }
    }
}

impl Function {
    /// The parameters of the function, in order.
    pub fn parameters(&self) -> (r: Vec<&Symbol>)
        ensures
            r@.map_values(|s: &Symbol| *s) == self.members@.filter(|s: Symbol| s.kind is Parameter),
    {
        let mut out: Vec<&Symbol> = Vec::new();
        let mut i: usize = 0;
        while i < self.members.len()
            invariant
                i <= self.members@.len(),
                out@.map_values(|s: &Symbol| *s) == self.members@.take(i as int).filter(|s: Symbol| s.kind is Parameter),
            decreases self.members@.len() - i,
        {
            let ghost prev = out@;
            proof {
                reveal(Seq::filter);
                assert(self.members@.take(i + 1).drop_last() =~= self.members@.take(i as int));
            }
            if let SymbolKind::Parameter(_) = &self.members[i].kind {
                out.push(&self.members[i]);
                assert(out@.map_values(|s: &Symbol| *s) =~= prev.map_values(|s: &Symbol| *s).push(self.members@[i as int]));
            }
            i += 1;
        }
        assert(self.members@.take(self.members@.len() as int) =~= self.members@);
        out
    }

    /// The return type, if the function declares one.
    pub fn return_type(&self) -> (r: Option<&Symbol>)
        ensures
            match r {
                Some(s) => exists|i: int| 0 <= i < self.members@.len() && self.members@[i] == *s
                    && s.kind is Type && forall|j: int| 0 <= j < i ==> !(self.members@[j].kind is Type),
                None => forall|j: int| 0 <= j < self.members@.len() ==> !(self.members@[j].kind is Type),
            },
    {
        let mut i: usize = 0;
        while i < self.members.len()
            invariant
                i <= self.members@.len(),
                forall|j: int| 0 <= j < i ==> !(self.members@[j].kind is Type),
            decreases self.members@.len() - i,
        {
            if let SymbolKind::Type(_) = &self.members[i].kind {
                return Some(&self.members[i]);
            }
            i += 1;
        }
        None
    }
}

impl Parameter {
    /// The declared type of the parameter, if any.
    pub fn the_type(&self) -> (r: Option<&Symbol>)
        ensures
            match r {
                Some(s) => exists|i: int| 0 <= i < self.members@.len() && self.members@[i] == *s
                    && s.kind is Type && forall|j: int| 0 <= j < i ==> !(self.members@[j].kind is Type),
                None => forall|j: int| 0 <= j < self.members@.len() ==> !(self.members@[j].kind is Type),
            },
    {
        let mut i: usize = 0;
        while i < self.members.len()
            invariant
                i <= self.members@.len(),
                forall|j: int| 0 <= j < i ==> !(self.members@[j].kind is Type),
            decreases self.members@.len() - i,
        {
            if let SymbolKind::Type(_) = &self.members[i].kind {
                return Some(&self.members[i]);
            }
            i += 1;
        }
        None
    }
}

} // verus!
