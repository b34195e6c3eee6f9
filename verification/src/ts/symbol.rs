//! The symbols discovered in TypeScript source code.
use vstd::prelude::*;
use crate::ts::class::Class;
use crate::ts::field::Field;
use crate::ts::function::Function;
use crate::ts::interface::Interface;
use crate::ts::method::Method;
use crate::ts::parameter::Parameter;
use crate::ts::property::Property;
use crate::ts::type_alias::TypeAlias;
use crate::ts::type_constraint::TypeConstraint;
use crate::ts::type_variable::TypeVariable;
use crate::ts::types::{Type, type_identifier};

verus! {

/// The symbol identifier, drawn from a `SymbolIds` counter; 0 is never
/// handed out before the counter wraps around.
pub type SymbolID = usize;

/// The identifier that marks a symbol made outside any parse.
pub const UNUSED_SYMBOL_ID: usize = 0;

/// Hands out symbol identifiers from 1 on, each larger than every one
/// handed out before, until the counter wraps around past the largest
/// `usize`.
#[derive(Clone, Copy, Debug)]
pub struct SymbolIds {
    next: SymbolID,
}

impl View for SymbolIds {
    type V = SymbolID;

    /// The identifier handed out next.
    closed spec fn view(&self) -> SymbolID {
        self.next
    }
}

impl SymbolIds {
    /// A counter that has handed out nothing yet.
    pub fn new() -> (r: Self)
        ensures
            r@ == 1,
    {
        SymbolIds { next: 1 }
    }

    /// The next identifier.
    pub fn take(&mut self) -> (r: SymbolID)
        ensures
            r == old(self)@,
            final(self)@ == crate::ts::symbol_table::after(old(self)@),
    {
        let r = self.next;
        self.next = if self.next < usize::MAX {
            self.next + 1
        } else {
            0
        };
        r
    }
}

/// A symbol we've discovered in the source code.
#[derive(Debug, PartialEq)]
pub struct Symbol {
    pub id: SymbolID,
    pub kind: SymbolKind,
    pub source: Source,
    pub fqn: String,
    /// If this symbol is a child of another symbol, this
    /// field describes the relationship to its parent.
    ///
    /// E.g. a function would have a return type symbol,
    /// where this field would be set to SymbolContext::ReturnType
    pub context: Option<SymbolContext>,
    pub scope_id: usize,
}

/// How a symbol relates to the symbol it is a child of.
#[derive(Debug, Clone, Copy, PartialEq, Eq, Structural)]
pub enum SymbolContext {
    ReturnType,
    Property,
    Extends,
    Parameter,
}

impl SymbolContext {
    /// The name the context is shown under in an entity.
    pub fn as_str(&self) -> (r: &'static str)
        ensures
            r@ == context_name(*self),
    {
        match self {
            SymbolContext::ReturnType => "return_type",
            SymbolContext::Property => "property",
            SymbolContext::Extends => "extends",
            SymbolContext::Parameter => "parameter",
        }
    }
}

pub open spec fn context_name(c: SymbolContext) -> Seq<char> {
    match c {
        SymbolContext::ReturnType => "return_type"@,
        SymbolContext::Property => "property"@,
        SymbolContext::Extends => "extends"@,
        SymbolContext::Parameter => "parameter"@,
    }
}

/// The type of the symbol.
/// Contains all the metadata associated with that type of symbol
#[derive(Debug, PartialEq)]
pub enum SymbolKind {
    Class(Class),
    Field(Field),
    Function(Function),
    Interface(Interface),
    Method(Method),
    TypeAlias(TypeAlias),
    Type(Type),
    TypeVariable(TypeVariable),
    TypeConstraint(TypeConstraint),
    Parameter(Parameter),
    Property(Property),
}

/// The source of the symbol.
#[derive(Debug, Clone, PartialEq, Eq)]
pub struct Source {
    pub file: String,
    pub offset_start_bytes: usize,
    pub offset_end_bytes: usize,
}

/// The child symbols of a symbol.
pub open spec fn children_of(s: Symbol) -> Seq<Symbol> {
    kind_children(s.kind)
}

/// The name a symbol kind is known by, if it has one.
pub open spec fn kind_identifier(k: SymbolKind) -> Option<Seq<char>>
    decreases k,
{
    match k {
        SymbolKind::Class(c) => Some(c.identifier@),
        SymbolKind::Function(f) => Some(f.identifier@),
        SymbolKind::Field(f) => Some(f.identifier@),
        SymbolKind::Interface(i) => Some(i.identifier@),
        SymbolKind::Method(m) => Some(m.identifier.spec_str()),
        SymbolKind::TypeAlias(a) => Some(a.identifier@),
        SymbolKind::Type(t) => type_identifier(t),
        SymbolKind::Parameter(p) => Some(p.identifier@),
        SymbolKind::Property(p) => Some(p.identifier@),
        SymbolKind::TypeVariable(t) => Some(t.identifier@),
        SymbolKind::TypeConstraint(_) => None,
    }
}

/// The views of an optional string slice.
pub open spec fn opt_view(o: Option<&str>) -> Option<Seq<char>> {
    match o {
        Some(s) => Some(s@),
        None => None,
    }
}

/// The identifier a symbol names that type resolution looks up.
pub open spec fn resolvable_name(s: Symbol) -> Option<Seq<char>> {
    match s.kind {
        SymbolKind::Type(t) => match t {
            Type::Identifier(n, _) => Some(n@),
            _ => None,
        },
        SymbolKind::TypeAlias(a) => Some(a.identifier@),
        SymbolKind::Interface(i) => Some(i.identifier@),
        SymbolKind::Class(c) => Some(c.identifier@),
        SymbolKind::TypeVariable(t) => Some(t.identifier@),
        SymbolKind::Function(f) => Some(f.identifier@),
        _ => None,
    }
}

/// Whether a symbol counts as exported: only type aliases carry the mark.
pub open spec fn exported(s: Symbol) -> bool {
    match s.kind {
        SymbolKind::TypeAlias(a) => a.exported,
        _ => false,
    }
}

/// `s` marked as exported: type aliases carry the mark, other kinds are
/// left as they are.
pub open spec fn mark_exported(s: Symbol) -> Symbol {
    match s.kind {
        SymbolKind::TypeAlias(a) => Symbol { kind: SymbolKind::TypeAlias(TypeAlias { exported: true, ..a }), ..s },
        _ => s,
    }
}

/// Whether two strings have the same characters.
pub fn str_equal(a: &str, b: &str) -> (r: bool)
    ensures
        r == (a@ == b@),
{
    crate::text::str_eq(a, b)
}

/// `k` with its type identifier pointed at `fqn`; other kinds unchanged.
pub open spec fn retarget(k: SymbolKind, fqn: String) -> SymbolKind {
    match k {
        SymbolKind::Type(Type::Identifier(n, _)) => SymbolKind::Type(Type::Identifier(n, Some(fqn))),
        _ => k,
    }
}

impl Symbol {
    pub fn is_exported(&self) -> (r: bool)
        ensures
            r == exported(*self),
    {
        match &self.kind {
            SymbolKind::TypeAlias(a) => a.exported,
            _ => false,
        }
    }

    pub fn mark_as_exported(&mut self)
        ensures
            *final(self) == mark_exported(*old(self)),
    {
        match &mut self.kind {
            SymbolKind::TypeAlias(a) => {
                a.exported = true;
            },
            _ => {},
        }
    }

    pub fn identifier(&self) -> (r: Option<&str>)
        ensures
            opt_view(r) == kind_identifier(self.kind),
    {
        self.kind.identifier()
    }

    pub fn children(&self) -> (r: &[Symbol])
        ensures
            r@ == children_of(*self),
    {
        self.kind.children()
    }

    pub fn children_mut(&mut self) -> (r: &mut [Symbol])
        ensures
            r@ == children_of(*old(self)),
            final(r)@ == children_of(*final(self)),
            same_kind_except_children(old(self).kind, final(self).kind),
            final(self).source == old(self).source,
            final(self).fqn == old(self).fqn,
            final(self).context == old(self).context,
            final(self).scope_id == old(self).scope_id,
            final(self).id == old(self).id,
    {
        self.kind.children_mut()
    }

    pub fn resolvable_identifier(&self) -> (r: Option<&str>)
        ensures
            opt_view(r) == resolvable_name(*self),
    {
        match &self.kind {
            SymbolKind::Type(t) => t.resolvable_identifier(),
            SymbolKind::TypeAlias(t) => Some(t.identifier.as_str()),
            SymbolKind::Interface(i) => Some(i.identifier.as_str()),
            SymbolKind::Class(i) => Some(i.identifier.as_str()),
            SymbolKind::TypeVariable(t) => Some(t.identifier.as_str()),
            SymbolKind::Function(f) => Some(f.identifier.as_str()),
            _ => None,
        }
    }

    /// Points a type identifier at the fully qualified name it names.
    pub fn resolve_type(&mut self, fqn: &str)
        ensures
            final(self).source == old(self).source,
            final(self).fqn == old(self).fqn,
            final(self).context == old(self).context,
            final(self).scope_id == old(self).scope_id,
            final(self).id == old(self).id,
            match old(self).kind {
                SymbolKind::Type(Type::Identifier(n, _)) => final(self).kind matches SymbolKind::Type(
                    Type::Identifier(n2, Some(f)),
                ) && n2 == n && f@ == fqn@,
                _ => final(self).kind == old(self).kind,
            },
    {
        if let SymbolKind::Type(t) = &mut self.kind {
            t.resolve_type(fqn)
        }
    }
}

impl SymbolKind {
    pub fn identifier(&self) -> (r: Option<&str>)
        ensures
            opt_view(r) == kind_identifier(*self),
        decreases *self,
    {
        match self {
            SymbolKind::Class(c) => Some(c.identifier.as_str()),
            SymbolKind::Function(f) => Some(f.identifier.as_str()),
            SymbolKind::Field(f) => Some(f.identifier.as_str()),
            SymbolKind::Interface(i) => Some(i.identifier.as_str()),
            SymbolKind::Method(m) => Some(m.identifier.as_str()),
            SymbolKind::TypeAlias(a) => Some(a.identifier.as_str()),
            SymbolKind::Type(t) => t.identifier(),
            SymbolKind::Parameter(p) => Some(p.identifier.as_str()),
            SymbolKind::Property(p) => Some(p.identifier.as_str()),
            SymbolKind::TypeVariable(t) => Some(t.identifier.as_str()),
            SymbolKind::TypeConstraint(_) => None,
        }
    }

    pub fn children(&self) -> (r: &[Symbol])
        ensures
            r@ == kind_children(*self),
    {
        match self {
            SymbolKind::Class(c) => c.children.as_slice(),
            SymbolKind::Function(f) => f.children.as_slice(),
            SymbolKind::Field(f) => f.children.as_slice(),
            SymbolKind::Interface(i) => i.children.as_slice(),
            SymbolKind::Method(m) => m.children.as_slice(),
            SymbolKind::TypeAlias(a) => a.children.as_slice(),
            SymbolKind::Type(t) => t.children(),
            SymbolKind::Parameter(p) => p.children.as_slice(),
            SymbolKind::Property(p) => p.children.as_slice(),
            SymbolKind::TypeVariable(t) => t.children.as_slice(),
            SymbolKind::TypeConstraint(t) => t.children.as_slice(),
        }
    }

    pub fn as_class(&self) -> (r: Option<&Class>)
        ensures
            match *self {
                SymbolKind::Class(x) => r == Some(&x),
                _ => r is None,
            },
    {
        match self {
            SymbolKind::Class(x) => Some(x),
            _ => None,
        }
    }

    pub fn as_field(&self) -> (r: Option<&Field>)
        ensures
            match *self {
                SymbolKind::Field(x) => r == Some(&x),
                _ => r is None,
            },
    {
        match self {
            SymbolKind::Field(x) => Some(x),
            _ => None,
        }
    }

    pub fn as_function(&self) -> (r: Option<&Function>)
        ensures
            match *self {
                SymbolKind::Function(x) => r == Some(&x),
                _ => r is None,
            },
    {
        match self {
            SymbolKind::Function(x) => Some(x),
            _ => None,
        }
    }

    pub fn as_interface(&self) -> (r: Option<&Interface>)
        ensures
            match *self {
                SymbolKind::Interface(x) => r == Some(&x),
                _ => r is None,
            },
    {
        match self {
            SymbolKind::Interface(x) => Some(x),
            _ => None,
        }
    }

    pub fn as_method(&self) -> (r: Option<&Method>)
        ensures
            match *self {
                SymbolKind::Method(x) => r == Some(&x),
                _ => r is None,
            },
    {
        match self {
            SymbolKind::Method(x) => Some(x),
            _ => None,
        }
    }

    pub fn as_type_alias(&self) -> (r: Option<&TypeAlias>)
        ensures
            match *self {
                SymbolKind::TypeAlias(x) => r == Some(&x),
                _ => r is None,
            },
    {
        match self {
            SymbolKind::TypeAlias(x) => Some(x),
            _ => None,
        }
    }

    pub fn as_type_variable(&self) -> (r: Option<&TypeVariable>)
        ensures
            match *self {
                SymbolKind::TypeVariable(x) => r == Some(&x),
                _ => r is None,
            },
    {
        match self {
            SymbolKind::TypeVariable(x) => Some(x),
            _ => None,
        }
    }

    pub fn as_type_constraint(&self) -> (r: Option<&TypeConstraint>)
        ensures
            match *self {
                SymbolKind::TypeConstraint(x) => r == Some(&x),
                _ => r is None,
            },
    {
        match self {
            SymbolKind::TypeConstraint(x) => Some(x),
            _ => None,
        }
    }

    pub fn as_type(&self) -> (r: Option<&Type>)
        ensures
            match *self {
                SymbolKind::Type(x) => r == Some(&x),
                _ => r is None,
            },
    {
        match self {
            SymbolKind::Type(x) => Some(x),
            _ => None,
        }
    }

    pub fn as_property(&self) -> (r: Option<&Property>)
        ensures
            match *self {
                SymbolKind::Property(x) => r == Some(&x),
                _ => r is None,
            },
    {
        match self {
            SymbolKind::Property(x) => Some(x),
            _ => None,
        }
    }

    pub fn as_parameter(&self) -> (r: Option<&Parameter>)
        ensures
            match *self {
                SymbolKind::Parameter(x) => r == Some(&x),
                _ => r is None,
            },
    {
        match self {
            SymbolKind::Parameter(x) => Some(x),
            _ => None,
        }
    }

    pub fn children_mut(&mut self) -> (r: &mut [Symbol])
        ensures
            r@ == kind_children(*old(self)),
            final(r)@ == kind_children(*final(self)),
            same_kind_except_children(*old(self), *final(self)),
    {
        match self {
            SymbolKind::Class(c) => c.children.as_mut_slice(),
            SymbolKind::Function(f) => f.children.as_mut_slice(),
            SymbolKind::Field(f) => f.children.as_mut_slice(),
            SymbolKind::Interface(i) => i.children.as_mut_slice(),
            SymbolKind::Method(m) => m.children.as_mut_slice(),
            SymbolKind::TypeAlias(a) => a.children.as_mut_slice(),
            SymbolKind::Type(t) => t.children_mut(),
            SymbolKind::Parameter(p) => p.children.as_mut_slice(),
            SymbolKind::Property(p) => p.children.as_mut_slice(),
            SymbolKind::TypeVariable(t) => t.children.as_mut_slice(),
            SymbolKind::TypeConstraint(t) => t.children.as_mut_slice(),
        }
    }
}


/// Which child symbols an accessor picks out.
#[derive(Debug, Clone, Copy, PartialEq, Eq, Structural)]
pub enum Selector {
    Field,
    Method,
    Parameter,
    Property,
    Type,
    /// An object type, such as the body of an interface.
    ObjectType,
    TypeConstraint,
    TypeVariable,
    Context(SymbolContext),
}

pub open spec fn selects(sel: Selector, s: Symbol) -> bool {
    match sel {
        Selector::Field => s.kind is Field,
        Selector::Method => s.kind is Method,
        Selector::Parameter => s.kind is Parameter,
        Selector::Property => s.kind is Property,
        Selector::Type => s.kind is Type,
        Selector::ObjectType => s.kind matches SymbolKind::Type(Type::Object { .. }),
        Selector::TypeConstraint => s.kind is TypeConstraint,
        Selector::TypeVariable => s.kind is TypeVariable,
        Selector::Context(c) => s.context == Some(c),
    }
}

fn selects_exec(sel: Selector, s: &Symbol) -> (r: bool)
    ensures
        r == selects(sel, *s),
{
    match sel {
        Selector::Field => s.kind.as_field().is_some(),
        Selector::Method => s.kind.as_method().is_some(),
        Selector::Parameter => s.kind.as_parameter().is_some(),
        Selector::Property => s.kind.as_property().is_some(),
        Selector::Type => s.kind.as_type().is_some(),
        Selector::ObjectType => match &s.kind {
            SymbolKind::Type(Type::Object { .. }) => true,
            _ => false,
        },
        Selector::TypeConstraint => s.kind.as_type_constraint().is_some(),
        Selector::TypeVariable => s.kind.as_type_variable().is_some(),
        Selector::Context(c) => match s.context {
            Some(d) => d == c,
            None => false,
        },
    }
}

/// The symbols that an optional reference points at.
pub open spec fn deref_all(v: Seq<&Symbol>) -> Seq<Symbol> {
    v.map_values(|x: &Symbol| *x)
}

/// The first of `v` that `sel` picks out.
pub open spec fn first_selected(v: Seq<Symbol>, sel: Selector) -> Option<Symbol>
    decreases v.len(),
{
    if v.len() == 0 {
        None
    } else if selects(sel, v[0]) {
        Some(v[0])
    } else {
        first_selected(v.drop_first(), sel)
    }
}

pub open spec fn opt_deref(o: Option<&Symbol>) -> Option<Symbol> {
    match o {
        Some(x) => Some(*x),
        None => None,
    }
}

/// The symbols of `v` that `sel` picks out, in order.
pub fn select(v: &[Symbol], sel: Selector) -> (r: Vec<&Symbol>)
    ensures
        deref_all(r@) == v@.filter(|s: Symbol| selects(sel, s)),
{
    let mut out: Vec<&Symbol> = Vec::new();
    let mut i: usize = 0;
    while i < v.len()
        invariant
            i <= v@.len(),
            deref_all(out@) == v@.take(i as int).filter(|s: Symbol| selects(sel, s)),
        decreases v@.len() - i,
    {
        let ghost before = out@;
        if selects_exec(sel, &v[i]) {
            out.push(&v[i]);
            assert(deref_all(out@) =~= deref_all(before).push(v@[i as int]));
        }
        proof {
            assert(v@.take(i + 1) =~= v@.take(i as int).push(v@[i as int]));
            v@.take(i as int).lemma_filter_push(v@[i as int], |s: Symbol| selects(sel, s));
        }
        i += 1;
    }
    assert(v@.take(v@.len() as int) =~= v@);
    out
}

/// The first symbol of `v` that `sel` picks out.
pub fn find_first(v: &[Symbol], sel: Selector) -> (r: Option<&Symbol>)
    ensures
        opt_deref(r) == first_selected(v@, sel),
{
    let mut i: usize = 0;
    assert(v@.skip(0) =~= v@);
    while i < v.len()
        invariant
            i <= v@.len(),
            first_selected(v@, sel) == first_selected(v@.skip(i as int), sel),
        decreases v@.len() - i,
    {
        if selects_exec(sel, &v[i]) {
            assert(v@.skip(i as int)[0] == v@[i as int]);
            return Some(&v[i]);
        }
        assert(v@.skip(i as int).drop_first() =~= v@.skip(i + 1));
        i += 1;
    }
    None
}


/// The kind `a` should have once its type identifier points where
/// `target` says the identifier, looked up from `a`'s scope, leads.
pub open spec fn expected_kind(a: Symbol, target: spec_fn(Seq<char>, int) -> Option<String>) -> SymbolKind {
    match a.kind {
        SymbolKind::Type(Type::Identifier(n, _)) => match target(n@, a.scope_id as int) {
            Some(f) => retarget(a.kind, f),
            None => a.kind,
        },
        _ => a.kind,
    }
}

/// Whether `b` is `a` with every type identifier in it, at any depth,
/// pointed at where `target` says it leads; identifiers that `target`
/// leaves unresolved, and everything else, stay as they are.
pub open spec fn retargeted(a: Symbol, b: Symbol, target: spec_fn(Seq<char>, int) -> Option<String>) -> bool
    decreases a, 1int,
{
    proof {
        lemma_children_decrease(a);
    }
    &&& b.source == a.source
    &&& b.fqn == a.fqn
    &&& b.context == a.context
    &&& b.scope_id == a.scope_id
    &&& b.id == a.id
    &&& same_kind_except_children(expected_kind(a, target), b.kind)
    &&& if kind_children(a.kind).len() == 0 {
        kind_children(b.kind).len() == 0
    } else {
        retargeted_all(kind_children(a.kind), kind_children(b.kind), target)
    }
}

/// `retargeted`, element by element.
pub open spec fn retargeted_all(
    xs: Seq<Symbol>,
    ys: Seq<Symbol>,
    target: spec_fn(Seq<char>, int) -> Option<String>,
) -> bool
    decreases xs, 0int,
{
    &&& xs.len() == ys.len()
    &&& forall|i: int| 0 <= i < xs.len() ==> retargeted(xs[i], ys[i], target)
}

pub proof fn lemma_same_kind_trans(a: SymbolKind, b: SymbolKind, c: SymbolKind)
    requires
        same_kind_except_children(a, b),
        same_kind_except_children(b, c),
    ensures
        same_kind_except_children(a, c),
{
}

pub proof fn lemma_same_kind_slots(a: SymbolKind, b: SymbolKind)
    requires
        same_kind_except_children(a, b),
    ensures
        kind_has_children(a) == kind_has_children(b),
        !kind_has_children(a) ==> kind_children(a).len() == 0 && kind_children(b).len() == 0,
        (a matches SymbolKind::Type(Type::Identifier(_, _))) ==> b == a,
{
}

pub proof fn lemma_same_kind_refl(a: SymbolKind)
    ensures
        same_kind_except_children(a, a),
{
}

/// The child symbols a type holds.
pub open spec fn type_children(t: Type) -> Seq<Symbol> {
    match t {
        Type::Predefined(a0) => Seq::empty(),
        Type::Parenthesized(a0) => a0@,
        Type::Literal(a0) => Seq::empty(),
        Type::Identifier(a0, a1) => Seq::empty(),
        Type::Object { raw_string: raw_string, properties: properties } => properties@,
        Type::Conditional { members: members } => members@,
        Type::Union { members: members } => members@,
        Type::Intersection { members: members } => members@,
        Type::GenericType { identifier: identifier, members: members } => members@,
        Type::Array { members: members } => members@,
        Type::Tuple { members: members } => members@,
        Type::Function { members: members } => members@,
        Type::Rest { members: members } => members@,
        Type::TypeOf(a0) => Seq::empty(),
        Type::TemplateLiteral(a0) => Seq::empty(),
        Type::KeyOf(a0) => a0@,
        Type::ReadOnly(a0) => a0@,
        Type::Lookup(a0) => a0@,
        Type::Infer(a0) => a0@,
        Type::This => Seq::empty(),
        Type::Constructor { members: members } => members@,
    }
}

/// Whether a type has room for child symbols.
pub open spec fn type_has_children(t: Type) -> bool {
    match t {
        Type::Predefined(a0) => false,
        Type::Parenthesized(a0) => true,
        Type::Literal(a0) => false,
        Type::Identifier(a0, a1) => false,
        Type::Object { raw_string: raw_string, properties: properties } => true,
        Type::Conditional { members: members } => true,
        Type::Union { members: members } => true,
        Type::Intersection { members: members } => true,
        Type::GenericType { identifier: identifier, members: members } => true,
        Type::Array { members: members } => true,
        Type::Tuple { members: members } => true,
        Type::Function { members: members } => true,
        Type::Rest { members: members } => true,
        Type::TypeOf(a0) => false,
        Type::TemplateLiteral(a0) => false,
        Type::KeyOf(a0) => true,
        Type::ReadOnly(a0) => true,
        Type::Lookup(a0) => true,
        Type::Infer(a0) => true,
        Type::This => false,
        Type::Constructor { members: members } => true,
    }
}

/// The child symbols a symbol kind holds.
pub open spec fn kind_children(k: SymbolKind) -> Seq<Symbol> {
    match k {
        SymbolKind::Class(x) => x.children@,
        SymbolKind::Field(x) => x.children@,
        SymbolKind::Function(x) => x.children@,
        SymbolKind::Interface(x) => x.children@,
        SymbolKind::Method(x) => x.children@,
        SymbolKind::TypeAlias(x) => x.children@,
        SymbolKind::TypeVariable(x) => x.children@,
        SymbolKind::TypeConstraint(x) => x.children@,
        SymbolKind::Parameter(x) => x.children@,
        SymbolKind::Property(x) => x.children@,
        SymbolKind::Type(t) => type_children(t),
    }
}

/// Whether a symbol kind has room for child symbols.
pub open spec fn kind_has_children(k: SymbolKind) -> bool {
    match k {
        SymbolKind::Type(t) => type_has_children(t),
        _ => true,
    }
}

/// Whether two types are the same variant with the same fields, apart from
/// their child symbols.
pub open spec fn same_type_except_children(a: Type, b: Type) -> bool {
    match (a, b) {
        (Type::Predefined(xa0), Type::Predefined(ya0)) => xa0 == ya0,
        (Type::Parenthesized(xa0), Type::Parenthesized(ya0)) => true,
        (Type::Literal(xa0), Type::Literal(ya0)) => xa0 == ya0,
        (Type::Identifier(xa0, xa1), Type::Identifier(ya0, ya1)) => xa0 == ya0 && xa1 == ya1,
        (Type::Object { raw_string: xraw_string, properties: xproperties }, Type::Object { raw_string: yraw_string, properties: yproperties }) => xraw_string == yraw_string,
        (Type::Conditional { members: xmembers }, Type::Conditional { members: ymembers }) => true,
        (Type::Union { members: xmembers }, Type::Union { members: ymembers }) => true,
        (Type::Intersection { members: xmembers }, Type::Intersection { members: ymembers }) => true,
        (Type::GenericType { identifier: xidentifier, members: xmembers }, Type::GenericType { identifier: yidentifier, members: ymembers }) => xidentifier == yidentifier,
        (Type::Array { members: xmembers }, Type::Array { members: ymembers }) => true,
        (Type::Tuple { members: xmembers }, Type::Tuple { members: ymembers }) => true,
        (Type::Function { members: xmembers }, Type::Function { members: ymembers }) => true,
        (Type::Rest { members: xmembers }, Type::Rest { members: ymembers }) => true,
        (Type::TypeOf(xa0), Type::TypeOf(ya0)) => xa0 == ya0,
        (Type::TemplateLiteral(xa0), Type::TemplateLiteral(ya0)) => xa0 == ya0,
        (Type::KeyOf(xa0), Type::KeyOf(ya0)) => true,
        (Type::ReadOnly(xa0), Type::ReadOnly(ya0)) => true,
        (Type::Lookup(xa0), Type::Lookup(ya0)) => true,
        (Type::Infer(xa0), Type::Infer(ya0)) => true,
        (Type::This, Type::This) => true,
        (Type::Constructor { members: xmembers }, Type::Constructor { members: ymembers }) => true,
        _ => false,
    }
}

/// Whether two symbol kinds are the same variant with the same fields,
/// apart from their child symbols.
pub open spec fn same_kind_except_children(a: SymbolKind, b: SymbolKind) -> bool {
    match (a, b) {
        (SymbolKind::Class(x), SymbolKind::Class(y)) => x.identifier == y.identifier && x.documentation == y.documentation && x.exported == y.exported && x.is_abstract == y.is_abstract,
        (SymbolKind::Field(x), SymbolKind::Field(y)) => x.identifier == y.identifier && x.readonly == y.readonly && x.private == y.private && x.protected == y.protected && x.documentation == y.documentation && x.value == y.value,
        (SymbolKind::Function(x), SymbolKind::Function(y)) => x.identifier == y.identifier && x.documentation == y.documentation && x.is_exported == y.is_exported,
        (SymbolKind::Interface(x), SymbolKind::Interface(y)) => x.identifier == y.identifier && x.documentation == y.documentation && x.exported == y.exported,
        (SymbolKind::Method(x), SymbolKind::Method(y)) => x.identifier == y.identifier && x.documentation == y.documentation && x.is_abstract == y.is_abstract && x.is_private == y.is_private,
        (SymbolKind::TypeAlias(x), SymbolKind::TypeAlias(y)) => x.identifier == y.identifier && x.documentation == y.documentation && x.exported == y.exported,
        (SymbolKind::TypeVariable(x), SymbolKind::TypeVariable(y)) => x.identifier == y.identifier && x.documentation == y.documentation,
        (SymbolKind::TypeConstraint(x), SymbolKind::TypeConstraint(y)) => x.extends == y.extends,
        (SymbolKind::Parameter(x), SymbolKind::Parameter(y)) => x.identifier == y.identifier && x.optional == y.optional && x.readonly == y.readonly,
        (SymbolKind::Property(x), SymbolKind::Property(y)) => x.identifier == y.identifier && x.documentation == y.documentation && x.optional == y.optional && x.readonly == y.readonly && x.private == y.private && x.protected == y.protected,
        (SymbolKind::Type(x), SymbolKind::Type(y)) => same_type_except_children(x, y),
        _ => false,
    }
}

pub proof fn lemma_children_decrease(s: Symbol)
    ensures
        kind_children(s.kind).len() > 0 ==> decreases_to!(s => kind_children(s.kind)),
{
    assert(decreases_to!(s => s.kind));
    match s.kind {
        SymbolKind::Class(x) => {
            assert(decreases_to!(s.kind => x));
            assert(decreases_to!(x => x.children));
            assert(decreases_to!(x.children => x.children@));
            assert(decreases_to!(s => x.children@));
        }
        SymbolKind::Field(x) => {
            assert(decreases_to!(s.kind => x));
            assert(decreases_to!(x => x.children));
            assert(decreases_to!(x.children => x.children@));
            assert(decreases_to!(s => x.children@));
        }
        SymbolKind::Function(x) => {
            assert(decreases_to!(s.kind => x));
            assert(decreases_to!(x => x.children));
            assert(decreases_to!(x.children => x.children@));
            assert(decreases_to!(s => x.children@));
        }
        SymbolKind::Interface(x) => {
            assert(decreases_to!(s.kind => x));
            assert(decreases_to!(x => x.children));
            assert(decreases_to!(x.children => x.children@));
            assert(decreases_to!(s => x.children@));
        }
        SymbolKind::Method(x) => {
            assert(decreases_to!(s.kind => x));
            assert(decreases_to!(x => x.children));
            assert(decreases_to!(x.children => x.children@));
            assert(decreases_to!(s => x.children@));
        }
        SymbolKind::TypeAlias(x) => {
            assert(decreases_to!(s.kind => x));
            assert(decreases_to!(x => x.children));
            assert(decreases_to!(x.children => x.children@));
            assert(decreases_to!(s => x.children@));
        }
        SymbolKind::TypeVariable(x) => {
            assert(decreases_to!(s.kind => x));
            assert(decreases_to!(x => x.children));
            assert(decreases_to!(x.children => x.children@));
            assert(decreases_to!(s => x.children@));
        }
        SymbolKind::TypeConstraint(x) => {
            assert(decreases_to!(s.kind => x));
            assert(decreases_to!(x => x.children));
            assert(decreases_to!(x.children => x.children@));
            assert(decreases_to!(s => x.children@));
        }
        SymbolKind::Parameter(x) => {
            assert(decreases_to!(s.kind => x));
            assert(decreases_to!(x => x.children));
            assert(decreases_to!(x.children => x.children@));
            assert(decreases_to!(s => x.children@));
        }
        SymbolKind::Property(x) => {
            assert(decreases_to!(s.kind => x));
            assert(decreases_to!(x => x.children));
            assert(decreases_to!(x.children => x.children@));
            assert(decreases_to!(s => x.children@));
        }
        SymbolKind::Type(t) => {
            assert(decreases_to!(s.kind => t));
            lemma_type_children_decrease(t);
        }
    }
}

/// The children of a type are below it.
pub proof fn lemma_type_children_decrease(t: Type)
    ensures
        type_children(t).len() > 0 ==> decreases_to!(t => type_children(t)),
{
    match t {
        Type::Parenthesized(a0) => {
            assert(decreases_to!(t => a0));
            assert(decreases_to!(a0 => a0@));
            assert(decreases_to!(t => a0@));
        }
        Type::Object { raw_string: raw_string, properties: properties } => {
            assert(decreases_to!(t => properties));
            assert(decreases_to!(properties => properties@));
            assert(decreases_to!(t => properties@));
        }
        Type::Conditional { members: members } => {
            assert(decreases_to!(t => members));
            assert(decreases_to!(members => members@));
            assert(decreases_to!(t => members@));
        }
        Type::Union { members: members } => {
            assert(decreases_to!(t => members));
            assert(decreases_to!(members => members@));
            assert(decreases_to!(t => members@));
        }
        Type::Intersection { members: members } => {
            assert(decreases_to!(t => members));
            assert(decreases_to!(members => members@));
            assert(decreases_to!(t => members@));
        }
        Type::GenericType { identifier: identifier, members: members } => {
            assert(decreases_to!(t => members));
            assert(decreases_to!(members => members@));
            assert(decreases_to!(t => members@));
        }
        Type::Array { members: members } => {
            assert(decreases_to!(t => members));
            assert(decreases_to!(members => members@));
            assert(decreases_to!(t => members@));
        }
        Type::Tuple { members: members } => {
            assert(decreases_to!(t => members));
            assert(decreases_to!(members => members@));
            assert(decreases_to!(t => members@));
        }
        Type::Function { members: members } => {
            assert(decreases_to!(t => members));
            assert(decreases_to!(members => members@));
            assert(decreases_to!(t => members@));
        }
        Type::Rest { members: members } => {
            assert(decreases_to!(t => members));
            assert(decreases_to!(members => members@));
            assert(decreases_to!(t => members@));
        }
        Type::KeyOf(a0) => {
            assert(decreases_to!(t => a0));
            assert(decreases_to!(a0 => a0@));
            assert(decreases_to!(t => a0@));
        }
        Type::ReadOnly(a0) => {
            assert(decreases_to!(t => a0));
            assert(decreases_to!(a0 => a0@));
            assert(decreases_to!(t => a0@));
        }
        Type::Lookup(a0) => {
            assert(decreases_to!(t => a0));
            assert(decreases_to!(a0 => a0@));
            assert(decreases_to!(t => a0@));
        }
        Type::Infer(a0) => {
            assert(decreases_to!(t => a0));
            assert(decreases_to!(a0 => a0@));
            assert(decreases_to!(t => a0@));
        }
        Type::Constructor { members: members } => {
            assert(decreases_to!(t => members));
            assert(decreases_to!(members => members@));
            assert(decreases_to!(t => members@));
        }
        _ => {}
    }
}

/// Moves the child symbols out of `k`, leaving none behind.
pub fn take_children(k: &mut SymbolKind) -> (r: Vec<Symbol>)
    ensures
        r@ == kind_children(*old(k)),
        kind_children(*final(k)) == Seq::<Symbol>::empty(),
        same_kind_except_children(*old(k), *final(k)),
{
    let mut out: Vec<Symbol> = Vec::new();
    match k {
        SymbolKind::Class(x) => { std::mem::swap(&mut out, &mut x.children); }
        SymbolKind::Field(x) => { std::mem::swap(&mut out, &mut x.children); }
        SymbolKind::Function(x) => { std::mem::swap(&mut out, &mut x.children); }
        SymbolKind::Interface(x) => { std::mem::swap(&mut out, &mut x.children); }
        SymbolKind::Method(x) => { std::mem::swap(&mut out, &mut x.children); }
        SymbolKind::TypeAlias(x) => { std::mem::swap(&mut out, &mut x.children); }
        SymbolKind::TypeVariable(x) => { std::mem::swap(&mut out, &mut x.children); }
        SymbolKind::TypeConstraint(x) => { std::mem::swap(&mut out, &mut x.children); }
        SymbolKind::Parameter(x) => { std::mem::swap(&mut out, &mut x.children); }
        SymbolKind::Property(x) => { std::mem::swap(&mut out, &mut x.children); }
        SymbolKind::Type(t) => match t {
            Type::Parenthesized(v) => { std::mem::swap(&mut out, v); }
            Type::Object { properties, .. } => { std::mem::swap(&mut out, properties); }
            Type::Conditional { members, .. } => { std::mem::swap(&mut out, members); }
            Type::Union { members, .. } => { std::mem::swap(&mut out, members); }
            Type::Intersection { members, .. } => { std::mem::swap(&mut out, members); }
            Type::GenericType { members, .. } => { std::mem::swap(&mut out, members); }
            Type::Array { members, .. } => { std::mem::swap(&mut out, members); }
            Type::Tuple { members, .. } => { std::mem::swap(&mut out, members); }
            Type::Function { members, .. } => { std::mem::swap(&mut out, members); }
            Type::Rest { members, .. } => { std::mem::swap(&mut out, members); }
            Type::KeyOf(v) => { std::mem::swap(&mut out, v); }
            Type::ReadOnly(v) => { std::mem::swap(&mut out, v); }
            Type::Lookup(v) => { std::mem::swap(&mut out, v); }
            Type::Infer(v) => { std::mem::swap(&mut out, v); }
            Type::Constructor { members, .. } => { std::mem::swap(&mut out, members); }
            _ => {}
        },
    }
    out
}

/// Puts `v` into `k` as its child symbols.
pub fn put_children(k: &mut SymbolKind, v: Vec<Symbol>)
    requires
        kind_has_children(*old(k)) || v@.len() == 0,
        kind_children(*old(k)).len() == 0,
    ensures
        kind_children(*final(k)) == v@,
        same_kind_except_children(*old(k), *final(k)),
{
    let mut v = v;
    match k {
        SymbolKind::Class(x) => { std::mem::swap(&mut v, &mut x.children); }
        SymbolKind::Field(x) => { std::mem::swap(&mut v, &mut x.children); }
        SymbolKind::Function(x) => { std::mem::swap(&mut v, &mut x.children); }
        SymbolKind::Interface(x) => { std::mem::swap(&mut v, &mut x.children); }
        SymbolKind::Method(x) => { std::mem::swap(&mut v, &mut x.children); }
        SymbolKind::TypeAlias(x) => { std::mem::swap(&mut v, &mut x.children); }
        SymbolKind::TypeVariable(x) => { std::mem::swap(&mut v, &mut x.children); }
        SymbolKind::TypeConstraint(x) => { std::mem::swap(&mut v, &mut x.children); }
        SymbolKind::Parameter(x) => { std::mem::swap(&mut v, &mut x.children); }
        SymbolKind::Property(x) => { std::mem::swap(&mut v, &mut x.children); }
        SymbolKind::Type(t) => match t {
            Type::Parenthesized(m) => { std::mem::swap(&mut v, m); }
            Type::Object { properties, .. } => { std::mem::swap(&mut v, properties); }
            Type::Conditional { members, .. } => { std::mem::swap(&mut v, members); }
            Type::Union { members, .. } => { std::mem::swap(&mut v, members); }
            Type::Intersection { members, .. } => { std::mem::swap(&mut v, members); }
            Type::GenericType { members, .. } => { std::mem::swap(&mut v, members); }
            Type::Array { members, .. } => { std::mem::swap(&mut v, members); }
            Type::Tuple { members, .. } => { std::mem::swap(&mut v, members); }
            Type::Function { members, .. } => { std::mem::swap(&mut v, members); }
            Type::Rest { members, .. } => { std::mem::swap(&mut v, members); }
            Type::KeyOf(m) => { std::mem::swap(&mut v, m); }
            Type::ReadOnly(m) => { std::mem::swap(&mut v, m); }
            Type::Lookup(m) => { std::mem::swap(&mut v, m); }
            Type::Infer(m) => { std::mem::swap(&mut v, m); }
            Type::Constructor { members, .. } => { std::mem::swap(&mut v, members); }
            _ => {}
        },
    }
}

} // verus!
