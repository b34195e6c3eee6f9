//! How TypeScript symbols are described as entities.
use vstd::prelude::*;
use crate::common::{
    meta_set, meta_view, set_meta, Entity, EntityView, Identity, IdentitySpec, MetaEntry, MetaSpec,
    MetaValue,
};
use crate::text::{join, join_chars};
use crate::ts::class::Class;
use crate::ts::field::Field;
use crate::ts::function::Function;
use crate::ts::interface::Interface;
use crate::ts::method::Method;
use crate::ts::parameter::Parameter;
use crate::ts::property::Property;
use crate::ts::symbol::{
    context_name, kind_identifier, lemma_children_decrease, lemma_type_children_decrease, kind_children, type_children, Source, Symbol,
    SymbolContext, SymbolKind,
};
use crate::ts::type_alias::TypeAlias;
use crate::ts::type_constraint::TypeConstraint;
use crate::ts::type_variable::TypeVariable;
use crate::ts::types::Type;

verus! {

broadcast use vstd::seq_lib::group_seq_properties;

/// The language every TypeScript entity is marked with.
pub open spec fn ts_language() -> Seq<char> {
    "ts"@
}

/// The source of a symbol as an entity records it.
pub open spec fn entity_source(s: Source) -> crate::common::Source {
    crate::common::Source {
        file: s.file,
        start_offset_bytes: s.offset_start_bytes,
        end_offset_bytes: s.offset_end_bytes,
        repository: None,
    }
}

impl Source {
    pub fn as_entity_source(&self) -> (r: crate::common::Source)
        ensures
            r == entity_source(*self),
    {
        crate::common::Source {
            file: self.file.clone(),
            start_offset_bytes: self.offset_start_bytes,
            end_offset_bytes: self.offset_end_bytes,
            repository: None,
        }
    }
}

/// A flag in the metadata, present only when `on`.
pub open spec fn flag(on: bool, key: Seq<char>) -> Seq<(Seq<char>, MetaSpec)> {
    if on {
        seq![(key, MetaSpec::Flag(true))]
    } else {
        Seq::empty()
    }
}

pub open spec fn doc_text(d: Option<String>) -> Seq<char> {
    match d {
        Some(s) => s@,
        None => Seq::empty(),
    }
}

pub open spec fn context_text(c: Option<SymbolContext>) -> Option<Seq<char>> {
    match c {
        Some(x) => Some(context_name(x)),
        None => None,
    }
}

/// The name of a symbol in a title: its identifier, or nothing.
pub open spec fn title_name(s: Symbol) -> Seq<char> {
    match kind_identifier(s.kind) {
        Some(n) => n,
        None => Seq::empty(),
    }
}

/// The names of `v`, as titles show them.
pub open spec fn title_names(v: Seq<Symbol>) -> Seq<Seq<char>> {
    v.map_values(|s: Symbol| title_name(s))
}

/// The title name of `v[i]`, or nothing where `v` is shorter.
pub open spec fn nth_title(v: Seq<Symbol>, i: int) -> Seq<char> {
    if 0 <= i < v.len() {
        title_name(v[i])
    } else {
        Seq::empty()
    }
}

pub open spec fn head(
    title: Option<Seq<char>>,
    description: Seq<char>,
    kind: Seq<char>,
    identity: IdentitySpec,
    member_context: Option<Seq<char>>,
    source: Source,
    meta: Seq<(Seq<char>, MetaSpec)>,
) -> EntityView {
    EntityView {
        title,
        description,
        kind,
        identity,
        member_context,
        language: ts_language(),
        source: entity_source(source),
        meta,
    }
}

/// The head of the entity describing a type.
pub open spec fn type_head(t: Type, source: Source, fqn: Seq<char>) -> EntityView {
    let id = IdentitySpec::FQN(fqn);
    let e = Seq::<(Seq<char>, MetaSpec)>::empty();
    match t {
        Type::This => head(Some("this"@), Seq::empty(), "this_type"@, id, None, source, e),
        Type::Rest { members } => head(
            Some("..."@ + join(title_names(members@), ", "@)),
            Seq::empty(),
            "rest_type"@,
            id,
            None,
            source,
            e,
        ),
        Type::Infer(members) => head(
            Some("["@ + join(title_names(members@), ", "@) + "]"@),
            Seq::empty(),
            "infer_type"@,
            id,
            None,
            source,
            e,
        ),
        Type::Tuple { members } => head(
            Some("["@ + join(title_names(members@), ", "@) + "]"@),
            Seq::empty(),
            "tuple"@,
            id,
            None,
            source,
            e,
        ),
        Type::Conditional { members } => head(
            Some(
                nth_title(members@, 0) + " extends "@ + nth_title(members@, 1) + " ? "@ + nth_title(
                    members@,
                    2,
                ) + " : "@ + nth_title(members@, 3),
            ),
            Seq::empty(),
            "template_literal_type"@,
            id,
            None,
            source,
            e,
        ),
        Type::Lookup(members) => head(
            Some(nth_title(members@, 0) + "["@ + nth_title(members@, 1) + "]"@),
            Seq::empty(),
            "template_literal_type"@,
            id,
            None,
            source,
            e,
        ),
        Type::TemplateLiteral(l) => head(Some(l@), Seq::empty(), "template_literal_type"@, id, None, source, e),
        Type::ReadOnly(_) => head(
            Some("readonly"@),
            Seq::empty(),
            "readonly"@,
            id,
            None,
            source,
            seq![("readonly"@, MetaSpec::Flag(true))],
        ),
        Type::KeyOf(_) => head(Some("keyof"@), Seq::empty(), "keyof"@, id, None, source, e),
        Type::Constructor { .. } => head(Some("constructor"@), Seq::empty(), "parenthesized_type"@, id, None, source, e),
        Type::Parenthesized(v) => head(
            Some(if v@.len() > 0 { "("@ + title_name(v@[0]) + ")"@ } else { "()"@ }),
            Seq::empty(),
            "parenthesized_type"@,
            id,
            None,
            source,
            e,
        ),
        Type::Literal(n) => head(Some("\""@ + n@ + "\""@), Seq::empty(), "literal"@, id, None, source, e),
        Type::TypeOf(n) => head(Some("typeof "@ + n@), Seq::empty(), "typeof"@, id, None, source, e),
        Type::Function { .. } => head(Some("function_type"@), Seq::empty(), "function_type"@, id, None, source, e),
        Type::Array { .. } => head(Some("array_type"@), Seq::empty(), "array_type"@, id, None, source, e),
        Type::GenericType { identifier, .. } => head(Some(identifier@), Seq::empty(), "generic_type"@, id, None, source, e),
        Type::Intersection { .. } => head(Some("intersection"@), Seq::empty(), "intersection"@, id, None, source, e),
        Type::Union { .. } => head(Some("union"@), Seq::empty(), "union"@, id, None, source, e),
        Type::Object { .. } => head(Some("object"@), Seq::empty(), "object"@, id, None, source, e),
        Type::Predefined(n) => head(
            Some(n@),
            Seq::empty(),
            "predefined_type"@,
            IdentitySpec::FQN("builtin::"@ + n@),
            None,
            source,
            e,
        ),
        Type::Identifier(n, r) => head(
            Some(n@),
            Seq::empty(),
            "predefined_type"@,
            match r {
                Some(f) => IdentitySpec::Reference(f@),
                None => id,
            },
            None,
            source,
            e,
        ),
    }
}

/// The head of the entity describing `s`.
pub open spec fn expected_head(s: Symbol) -> EntityView
    decreases s,
{
    let src = s.source;
    let fqn = IdentitySpec::FQN(s.fqn@);
    let ctx = context_text(s.context);
    match s.kind {
        SymbolKind::Class(c) => head(Some(c.identifier@), doc_text(c.documentation), "class"@, fqn, None, src, flag(c.exported, "exported"@)),
        SymbolKind::Function(f) => head(Some(f.identifier@), doc_text(f.documentation), "function"@, fqn, ctx, src, flag(f.is_exported, "exported"@)),
        SymbolKind::Field(f) => head(
            Some(f.identifier@),
            doc_text(f.documentation),
            "field"@,
            fqn,
            None,
            src,
            flag(f.readonly, "readonly"@) + flag(f.protected, "protected"@) + flag(f.private, "private"@) + match f.value {
                Some(v) => seq![("value"@, MetaSpec::Text(v@))],
                None => Seq::empty(),
            },
        ),
        SymbolKind::Interface(i) => head(Some(i.identifier@), doc_text(i.documentation), "interface"@, fqn, None, src, flag(i.exported, "exported"@)),
        SymbolKind::Method(m) => head(Some(m.identifier.spec_str()), doc_text(m.documentation), "method"@, fqn, None, src, flag(m.is_abstract, "abstract"@)),
        SymbolKind::TypeAlias(a) => head(Some(a.identifier@), doc_text(a.documentation), "type_alias"@, fqn, ctx, src, Seq::empty()),
        SymbolKind::Type(t) => match t {
            Type::ReadOnly(v) => if v@.len() > 0 {
                proof {
                    assert(decreases_to!(s => s.kind));
                    assert(decreases_to!(v => v@));
                    assert(decreases_to!(s => v@[0]));
                }
                let inner = expected_head(v@[0]);
                EntityView { meta: meta_set(inner.meta, "readonly"@, MetaSpec::Flag(true)), ..inner }
            } else {
                type_head(t, src, s.fqn@)
            },
            _ => type_head(t, src, s.fqn@),
        },
        SymbolKind::Parameter(p) => head(Some(p.identifier@), Seq::empty(), "parameter"@, fqn, ctx, src, flag(p.optional, "optional"@)),
        SymbolKind::Property(p) => head(
            Some(p.identifier@),
            Seq::empty(),
            "property"@,
            fqn,
            ctx,
            src,
            flag(p.optional, "optional"@) + flag(p.readonly, "readonly"@) + flag(p.protected, "protected"@) + flag(p.private, "private"@),
        ),
        SymbolKind::TypeVariable(t) => head(Some(t.identifier@), Seq::empty(), "type_constraint"@, fqn, ctx, src, Seq::empty()),
        SymbolKind::TypeConstraint(c) => head(None, Seq::empty(), "type_constraint"@, IdentitySpec::Anonymous, ctx, src, flag(c.extends, "extends"@)),
    }
}

/// The symbols whose entities are the members of the entity describing `s`.
pub open spec fn expected_members(s: Symbol) -> Seq<Symbol>
    decreases s,
{
    match s.kind {
        SymbolKind::Type(t) => match t {
            Type::ReadOnly(v) => if v@.len() > 0 {
                proof {
                    assert(decreases_to!(s => s.kind));
                    assert(decreases_to!(v => v@));
                    assert(decreases_to!(s => v@[0]));
                }
                expected_members(v@[0])
            } else {
                Seq::empty()
            },
            Type::KeyOf(v) => if v@.len() > 0 { seq![v@[0]] } else { Seq::empty() },
            Type::This | Type::TemplateLiteral(_) | Type::Parenthesized(_) | Type::Literal(_) | Type::TypeOf(_)
            | Type::Predefined(_) | Type::Identifier(_, _) => Seq::empty(),
            _ => kind_children(s.kind),
        },
        _ => kind_children(s.kind),
    }
}

pub proof fn lemma_members_decrease(s: Symbol)
    ensures
        forall|i: int| 0 <= i < expected_members(s).len() ==> decreases_to!(s => #[trigger] expected_members(s)[i]),
    decreases s,
{
    lemma_children_decrease(s);
    let ks = kind_children(s.kind);
    assert forall|i: int| 0 <= i < ks.len() implies decreases_to!(s => #[trigger] ks[i]) by {
        assert(decreases_to!(ks => ks[i]));
    }
    assert(decreases_to!(s => s.kind));
    match s.kind {
        SymbolKind::Type(t) => {
            assert(decreases_to!(s.kind => t));
            match t {
                Type::ReadOnly(v) => {
                    if v@.len() > 0 {
                        assert(decreases_to!(t => v));
                        assert(decreases_to!(v => v@));
                        assert(decreases_to!(s => v@[0]));
                        lemma_members_decrease(v@[0]);
                        let m = expected_members(v@[0]);
                        assert(expected_members(s) == m);
                        assert forall|i: int| 0 <= i < m.len() implies decreases_to!(s => #[trigger] m[i]) by {
                            assert(decreases_to!(v@[0] => m[i]));
                        }
                    }
                },
                Type::KeyOf(v) => {
                    if v@.len() > 0 {
                        assert(decreases_to!(t => v));
                        assert(decreases_to!(v => v@));
                        assert(decreases_to!(s => v@[0]));
                    }
                },
                _ => {},
            }
        },
        _ => {},
    }
}

/// Whether `e` is the entity that describes `s`: its head is the one `s`
/// calls for, and its members describe the symbols `s` calls for, in order.
pub open spec fn describes(s: Symbol, e: Entity) -> bool
    decreases s,
{
    proof {
        lemma_members_decrease(s);
    }
    &&& e.head() == expected_head(s)
    &&& e.members@.len() == expected_members(s).len()
    &&& forall|i: int| 0 <= i < expected_members(s).len() ==> describes(expected_members(s)[i], #[trigger] e.members@[i])
}

fn push_flag(meta: &mut Vec<MetaEntry>, on: bool, key: &str)
    ensures
        meta_view(final(meta)@) == meta_view(old(meta)@) + flag(on, key@),
{
    if on {
        let ghost before = meta@;
        meta.push(MetaEntry { key: key.to_owned(), value: MetaValue::Flag(true) });
        assert(meta_view(meta@) =~= meta_view(before) + flag(on, key@));
    } else {
        assert(meta_view(meta@) =~= meta_view(old(meta)@) + flag(on, key@));
    }
}

fn doc_string(d: &Option<String>) -> (r: String)
    ensures
        r@ == doc_text(*d),
{
    match d {
        Some(s) => s.clone(),
        None => String::new(),
    }
}

fn context_string(c: Option<SymbolContext>) -> (r: Option<String>)
    ensures
        crate::common::opt_seq(r) == context_text(c),
{
    match c {
        Some(x) => Some(x.as_str().to_owned()),
        None => None,
    }
}

/// The title name of `s` as characters.
fn title_chars(s: &Symbol) -> (r: Vec<char>)
    ensures
        r@ == title_name(*s),
{
    match s.kind.identifier() {
        Some(n) => crate::text::chars_of(n),
        None => Vec::new(),
    }
}

fn nth_title_chars(v: &Vec<Symbol>, i: usize) -> (r: Vec<char>)
    ensures
        r@ == nth_title(v@, i as int),
{
    if i < v.len() {
        title_chars(&v[i])
    } else {
        Vec::new()
    }
}

/// The title names of `v`, joined with `", "`.
fn joined_titles(v: &Vec<Symbol>) -> (r: Vec<char>)
    ensures
        r@ == join(title_names(v@), ", "@),
{
    let mut names: Vec<Vec<char>> = Vec::new();
    let mut i: usize = 0;
    while i < v.len()
        invariant
            i <= v@.len(),
            names@.map_values(|p: Vec<char>| p@) == title_names(v@).take(i as int),
        decreases v@.len() - i,
    {
        let t = title_chars(&v[i]);
        let ghost before = names@;
        names.push(t);
        assert(names@.map_values(|p: Vec<char>| p@) =~= before.map_values(|p: Vec<char>| p@).push(t@));
        assert(title_names(v@).take(i + 1) =~= title_names(v@).take(i as int).push(title_name(v@[i as int])));
        i += 1;
    }
    assert(title_names(v@).take(v@.len() as int) =~= title_names(v@));
    let sep = crate::text::chars_of(", ");
    join_chars(&names, sep.as_slice())
}

/// `a` followed by `b`.
fn cat(a: Vec<char>, b: &str) -> (r: Vec<char>)
    ensures
        r@ == a@ + b@,
{
    let mut a = a;
    let t = crate::text::chars_of(b);
    crate::text::append_chars(&mut a, t.as_slice());
    a
}

/// `a` followed by `b`.
fn cat_chars(a: Vec<char>, b: Vec<char>) -> (r: Vec<char>)
    ensures
        r@ == a@ + b@,
{
    let mut a = a;
    crate::text::append_chars(&mut a, b.as_slice());
    a
}

fn text(s: Vec<char>) -> (r: String)
    ensures
        r@ == s@,
{
    crate::text::string_of(s.as_slice())
}

fn lit(s: &str) -> (r: Vec<char>)
    ensures
        r@ == s@,
{
    crate::text::chars_of(s)
}

fn build(
    title: Option<String>,
    description: String,
    kind: &str,
    identity: Identity,
    member_context: Option<String>,
    source: &Source,
    meta: Vec<MetaEntry>,
    members: Vec<Entity>,
) -> (e: Entity)
    ensures
        e.head() == head(
            crate::common::opt_seq(title),
            description@,
            kind@,
            crate::common::identity_view(identity),
            crate::common::opt_seq(member_context),
            *source,
            meta_view(meta@),
        ),
        e.members == members,
{
    Entity {
        title,
        description,
        kind: kind.to_owned(),
        identity,
        members,
        member_context,
        language: "ts".to_owned(),
        source: source.as_entity_source(),
        meta,
    }
}

/// The symbols whose entities are the members of the entity describing a
/// type that is not a `readonly` of some symbol.
pub open spec fn type_members(t: Type) -> Seq<Symbol> {
    match t {
        Type::KeyOf(v) => if v@.len() > 0 { seq![v@[0]] } else { Seq::empty() },
        Type::This | Type::TemplateLiteral(_) | Type::Parenthesized(_) | Type::Literal(_) | Type::TypeOf(_)
        | Type::Predefined(_) | Type::Identifier(_, _) => Seq::empty(),
        _ => type_children(t),
    }
}

impl Type {
    /// The entity describing this type, found at `source` and named `fqn`:
    /// what describes any symbol of this type with that source and name.
    pub fn as_entity(&self, source: &Source, fqn: &str) -> (e: Entity)
        ensures
            forall|s: Symbol|
                s.kind == SymbolKind::Type(*self) && s.source == *source && s.fqn@ == fqn@ ==> #[trigger] describes(s, e),
        decreases *self,
    {
        if let Type::ReadOnly(v) = self {
            if v.len() > 0 {
                proof {
                    assert(decreases_to!(*self => v));
                    assert(decreases_to!(v => v@));
                    assert(decreases_to!(*self => v@[0]));
                }
                let mut e = v[0].as_entity();
                set_meta(&mut e.meta, "readonly", MetaValue::Flag(true));
                proof {
                    assert forall|s: Symbol|
                        s.kind == SymbolKind::Type(*self) && s.source == *source && s.fqn@ == fqn@ implies #[trigger] describes(s, e) by {
                        lemma_members_decrease(s);
                        assert(expected_members(s) == expected_members(v@[0]));
                    }
                }
                return e;
            }
        }
        let kids: &[Symbol] = match self {
            Type::KeyOf(v) => v.as_slice(),
            Type::This | Type::TemplateLiteral(_) | Type::Parenthesized(_) | Type::Literal(_) | Type::TypeOf(_)
            | Type::Predefined(_) | Type::Identifier(_, _) => &[],
            _ => self.children(),
        };
        let n: usize = match self {
            Type::KeyOf(v) => if v.len() > 0 { 1 } else { 0 },
            _ => kids.len(),
        };
        let ghost ms = type_members(*self);
        proof {
            lemma_type_children_decrease(*self);
            assert(ms.len() == n);
            assert forall|j: int| 0 <= j < n implies kids@[j] == #[trigger] ms[j] by {}
            assert forall|j: int| 0 <= j < ms.len() implies decreases_to!(*self => #[trigger] ms[j]) by {
                match *self {
                    Type::KeyOf(v) => {
                        assert(decreases_to!(*self => v));
                        assert(decreases_to!(v => v@));
                    },
                    _ => {
                        assert(decreases_to!(type_children(*self) => type_children(*self)[j]));
                    },
                }
            }
        }
        let mut members: Vec<Entity> = Vec::new();
        let mut i: usize = 0;
        while i < n
            invariant
                i <= n,
                n == ms.len(),
                n <= kids@.len(),
                forall|j: int| 0 <= j < n ==> kids@[j] == #[trigger] ms[j],
                ms == type_members(*self),
                forall|j: int| 0 <= j < ms.len() ==> decreases_to!(*self => #[trigger] ms[j]),
                members@.len() == i,
                forall|j: int| 0 <= j < i ==> describes(ms[j], #[trigger] members@[j]),
            decreases n - i,
        {
            assert(kids@[i as int] == ms[i as int]);
            let m = kids[i].as_entity();
            members.push(m);
            i += 1;
        }
        let e = self.entity_with_members(source, fqn, members);
        proof {
            assert forall|s: Symbol|
                s.kind == SymbolKind::Type(*self) && s.source == *source && s.fqn@ == fqn@ implies #[trigger] describes(s, e) by {
                lemma_members_decrease(s);
                assert(expected_members(s) == ms);
                assert(expected_head(s) == type_head(*self, *source, fqn@));
            }
        }
        e
    }

    /// The entity describing this type, found at `source` and named `fqn`,
    /// with `members` as its members.
    fn entity_with_members(&self, source: &Source, fqn: &str, members: Vec<Entity>) -> (e: Entity)
        ensures
            e.head() == type_head(*self, *source, fqn@),
            e.members == members,
    {
        let id = Identity::FQN(fqn.to_owned());
        let none: Vec<MetaEntry> = Vec::new();
        assert(meta_view(none@) =~= Seq::<(Seq<char>, MetaSpec)>::empty());
        match self {
            Type::This => build(Some("this".to_owned()), String::new(), "this_type", id, None, source, none, members),
            Type::Rest { members: m } => {
                let t = cat_chars(lit("..."), joined_titles(m));
                build(Some(text(t)), String::new(), "rest_type", id, None, source, none, members)
            },
            Type::Infer(m) => {
                let t = cat(cat_chars(lit("["), joined_titles(m)), "]");
                build(Some(text(t)), String::new(), "infer_type", id, None, source, none, members)
            },
            Type::Tuple { members: m } => {
                let t = cat(cat_chars(lit("["), joined_titles(m)), "]");
                build(Some(text(t)), String::new(), "tuple", id, None, source, none, members)
            },
            Type::Conditional { members: m } => {
                let t = cat(nth_title_chars(m, 0), " extends ");
                let t = cat(cat_chars(t, nth_title_chars(m, 1)), " ? ");
                let t = cat(cat_chars(t, nth_title_chars(m, 2)), " : ");
                let t = cat_chars(t, nth_title_chars(m, 3));
                build(Some(text(t)), String::new(), "template_literal_type", id, None, source, none, members)
            },
            Type::Lookup(m) => {
                let t = cat(cat_chars(cat(nth_title_chars(m, 0), "["), nth_title_chars(m, 1)), "]");
                build(Some(text(t)), String::new(), "template_literal_type", id, None, source, none, members)
            },
            Type::TemplateLiteral(l) => build(Some(l.clone()), String::new(), "template_literal_type", id, None, source, none, members),
            Type::ReadOnly(_) => {
                let mut meta: Vec<MetaEntry> = Vec::new();
                push_flag(&mut meta, true, "readonly");
                assert(flag(true, "readonly"@) =~= seq![("readonly"@, MetaSpec::Flag(true))]);
                build(Some("readonly".to_owned()), String::new(), "readonly", id, None, source, meta, members)
            },
            Type::KeyOf(_) => build(Some("keyof".to_owned()), String::new(), "keyof", id, None, source, none, members),
            Type::Constructor { .. } => build(Some("constructor".to_owned()), String::new(), "parenthesized_type", id, None, source, none, members),
            Type::Parenthesized(v) => {
                let t = if v.len() > 0 {
                    cat(cat_chars(lit("("), title_chars(&v[0])), ")")
                } else {
                    lit("()")
                };
                build(Some(text(t)), String::new(), "parenthesized_type", id, None, source, none, members)
            },
            Type::Literal(n) => {
                let t = cat(cat(lit("\""), n.as_str()), "\"");
                build(Some(text(t)), String::new(), "literal", id, None, source, none, members)
            },
            Type::TypeOf(n) => {
                let t = cat(lit("typeof "), n.as_str());
                build(Some(text(t)), String::new(), "typeof", id, None, source, none, members)
            },
            Type::Function { .. } => build(Some("function_type".to_owned()), String::new(), "function_type", id, None, source, none, members),
            Type::Array { .. } => build(Some("array_type".to_owned()), String::new(), "array_type", id, None, source, none, members),
            Type::GenericType { identifier, .. } => build(Some(identifier.clone()), String::new(), "generic_type", id, None, source, none, members),
            Type::Intersection { .. } => build(Some("intersection".to_owned()), String::new(), "intersection", id, None, source, none, members),
            Type::Union { .. } => build(Some("union".to_owned()), String::new(), "union", id, None, source, none, members),
            Type::Object { .. } => build(Some("object".to_owned()), String::new(), "object", id, None, source, none, members),
            Type::Predefined(n) => {
                let t = cat(lit("builtin::"), n.as_str());
                build(Some(n.clone()), String::new(), "predefined_type", Identity::FQN(text(t)), None, source, none, members)
            },
            Type::Identifier(n, r) => {
                let identity = match r {
                    Some(f) => Identity::Reference(f.clone()),
                    None => id,
                };
                build(Some(n.clone()), String::new(), "predefined_type", identity, None, source, none, members)
            },
        }
    }
}

impl Symbol {
    /// The symbols whose entities are the members of this symbol's entity.
    fn member_symbols(&self) -> (r: Vec<&Symbol>)
        ensures
            crate::ts::symbol::deref_all(r@) == expected_members(*self) || (self.kind matches SymbolKind::Type(Type::ReadOnly(v)) && v@.len() > 0),
    {
        let mut out: Vec<&Symbol> = Vec::new();
        let kids: &[Symbol] = match &self.kind {
            SymbolKind::Type(t) => match t {
                Type::ReadOnly(v) => {
                    if v.len() > 0 {
                        return out;
                    }
                    &[]
                },
                Type::KeyOf(v) => {
                    if v.len() > 0 {
                        out.push(&v[0]);
                        assert(crate::ts::symbol::deref_all(out@) =~= seq![v@[0]]);
                        return out;
                    }
                    &[]
                },
                Type::This | Type::TemplateLiteral(_) | Type::Parenthesized(_) | Type::Literal(_)
                | Type::TypeOf(_) | Type::Predefined(_) | Type::Identifier(_, _) => &[],
                _ => self.kind.children(),
            },
            _ => self.kind.children(),
        };
        assert(kids@ == expected_members(*self));
        let mut i: usize = 0;
        while i < kids.len()
            invariant
                i <= kids@.len(),
                crate::ts::symbol::deref_all(out@) == kids@.take(i as int),
            decreases kids@.len() - i,
        {
            let ghost before = out@;
            out.push(&kids[i]);
            assert(crate::ts::symbol::deref_all(out@) =~= crate::ts::symbol::deref_all(before).push(kids@[i as int]));
            assert(kids@.take(i + 1) =~= kids@.take(i as int).push(kids@[i as int]));
            i += 1;
        }
        assert(kids@.take(kids@.len() as int) =~= kids@);
        out
    }

    /// The entity describing this symbol.
    pub fn as_entity(&self) -> (e: Entity)
        ensures
            describes(*self, e),
        decreases *self,
    {
        proof {
            lemma_members_decrease(*self);
        }
        if let SymbolKind::Type(t) = &self.kind {
            proof {
                assert(decreases_to!(*self => self.kind));
                assert(decreases_to!(self.kind => *t));
            }
            return t.as_entity(&self.source, self.fqn.as_str());
        }
        let kids = self.member_symbols();
        let ghost ms = expected_members(*self);
        let mut members: Vec<Entity> = Vec::new();
        let mut i: usize = 0;
        while i < kids.len()
            invariant
                i <= kids@.len(),
                crate::ts::symbol::deref_all(kids@) == ms,
                ms == expected_members(*self),
                forall|j: int| 0 <= j < ms.len() ==> decreases_to!(*self => #[trigger] ms[j]),
                members@.len() == i,
                forall|j: int| 0 <= j < i ==> describes(ms[j], #[trigger] members@[j]),
            decreases kids@.len() - i,
        {
            assert(*kids@[i as int] == ms[i as int]);
            let m = kids[i].as_entity();
            members.push(m);
            i += 1;
        }
        let e = self.entity_with_members(members);
        e
    }

    fn entity_with_members(&self, members: Vec<Entity>) -> (e: Entity)
        requires
            !(self.kind matches SymbolKind::Type(Type::ReadOnly(v)) && v@.len() > 0),
        ensures
            e.head() == expected_head(*self),
            e.members == members,
    {
        let source = &self.source;
        let ctx = context_string(self.context);
        let mut meta: Vec<MetaEntry> = Vec::new();
        assert(meta_view(meta@) =~= Seq::<(Seq<char>, MetaSpec)>::empty());
        match &self.kind {
            SymbolKind::Class(c) => {
                push_flag(&mut meta, c.exported, "exported");
                build(Some(c.identifier.clone()), doc_string(&c.documentation), "class", Identity::FQN(self.fqn.clone()), None, source, meta, members)
            },
            SymbolKind::Function(f) => {
                push_flag(&mut meta, f.is_exported, "exported");
                build(Some(f.identifier.clone()), doc_string(&f.documentation), "function", Identity::FQN(self.fqn.clone()), ctx, source, meta, members)
            },
            SymbolKind::Field(f) => {
                push_flag(&mut meta, f.readonly, "readonly");
                push_flag(&mut meta, f.protected, "protected");
                push_flag(&mut meta, f.private, "private");
                let ghost before = meta_view(meta@);
                match &f.value {
                    Some(v) => {
                        meta.push(MetaEntry { key: "value".to_owned(), value: MetaValue::Text(v.clone()) });
                        assert(meta_view(meta@) =~= before + seq![("value"@, MetaSpec::Text(v@))]);
                    },
                    None => {
                        assert(meta_view(meta@) =~= before + Seq::<(Seq<char>, MetaSpec)>::empty());
                    },
                }
                build(Some(f.identifier.clone()), doc_string(&f.documentation), "field", Identity::FQN(self.fqn.clone()), None, source, meta, members)
            },
            SymbolKind::Interface(i) => {
                push_flag(&mut meta, i.exported, "exported");
                build(Some(i.identifier.clone()), doc_string(&i.documentation), "interface", Identity::FQN(self.fqn.clone()), None, source, meta, members)
            },
            SymbolKind::Method(m) => {
                push_flag(&mut meta, m.is_abstract, "abstract");
                build(Some(m.identifier.as_str().to_owned()), doc_string(&m.documentation), "method", Identity::FQN(self.fqn.clone()), None, source, meta, members)
            },
            SymbolKind::TypeAlias(a) => {
                build(Some(a.identifier.clone()), doc_string(&a.documentation), "type_alias", Identity::FQN(self.fqn.clone()), ctx, source, meta, members)
            },
            SymbolKind::Type(t) => t.entity_with_members(source, self.fqn.as_str(), members),
            SymbolKind::Parameter(p) => {
                push_flag(&mut meta, p.optional, "optional");
                build(Some(p.identifier.clone()), String::new(), "parameter", Identity::FQN(self.fqn.clone()), ctx, source, meta, members)
            },
            SymbolKind::Property(p) => {
                push_flag(&mut meta, p.optional, "optional");
                push_flag(&mut meta, p.readonly, "readonly");
                push_flag(&mut meta, p.protected, "protected");
                push_flag(&mut meta, p.private, "private");
                build(Some(p.identifier.clone()), String::new(), "property", Identity::FQN(self.fqn.clone()), ctx, source, meta, members)
            },
            SymbolKind::TypeVariable(t) => {
                build(Some(t.identifier.clone()), String::new(), "type_constraint", Identity::FQN(self.fqn.clone()), ctx, source, meta, members)
            },
            SymbolKind::TypeConstraint(c) => {
                push_flag(&mut meta, c.extends, "extends");
                build(None, String::new(), "type_constraint", Identity::Anonymous, ctx, source, meta, members)
            },
        }
    }
}

/// The entity describing a symbol names what the symbol is: its kind is
/// `class`, `function`, `field`, `interface`, `method`, `type_alias`,
/// `parameter`, `property` or `type_constraint` for those symbols, each
/// titled by the symbol's name (a type constraint has no title and no
/// name), and for a type the kind of that type; its identity is the
/// symbol's fully qualified name, except for a type constraint, which has
/// none, a predefined type, which is named under `builtin::`, and a type
/// identifier resolved to a declaration, which refers to it. A function,
/// type alias, parameter, property, type variable or type constraint is
/// shown in its context (`return_type`, `property`, `extends` or
/// `parameter`), and the other declarations in none.
pub proof fn law_entity_kind_names_the_symbol(s: Symbol, e: Entity)
    requires
        describes(s, e),
    ensures
        e.language@ == "ts"@,
        !(s.kind is Type) ==> e.source == entity_source(s.source),
        s.kind is Class || s.kind is Field || s.kind is Interface || s.kind is Method ==> e.member_context is None,
        s.kind is Function || s.kind is TypeAlias || s.kind is Parameter || s.kind is Property || s.kind is TypeVariable
            || s.kind is TypeConstraint ==> crate::common::opt_seq(e.member_context) == match s.context {
            Some(SymbolContext::ReturnType) => Some("return_type"@),
            Some(SymbolContext::Property) => Some("property"@),
            Some(SymbolContext::Extends) => Some("extends"@),
            Some(SymbolContext::Parameter) => Some("parameter"@),
            None => None::<Seq<char>>,
        },
        match s.kind {
            SymbolKind::Class(c) => e.kind@ == "class"@ && crate::common::opt_seq(e.title) == Some(c.identifier@)
                && crate::common::identity_view(e.identity) == IdentitySpec::FQN(s.fqn@),
            SymbolKind::Function(f) => e.kind@ == "function"@ && crate::common::opt_seq(e.title) == Some(f.identifier@)
                && crate::common::identity_view(e.identity) == IdentitySpec::FQN(s.fqn@),
            SymbolKind::Field(f) => e.kind@ == "field"@ && crate::common::opt_seq(e.title) == Some(f.identifier@)
                && crate::common::identity_view(e.identity) == IdentitySpec::FQN(s.fqn@),
            SymbolKind::Interface(i) => e.kind@ == "interface"@ && crate::common::opt_seq(e.title) == Some(i.identifier@)
                && crate::common::identity_view(e.identity) == IdentitySpec::FQN(s.fqn@),
            SymbolKind::Method(m) => e.kind@ == "method"@ && crate::common::opt_seq(e.title) == Some(
                m.identifier.spec_str(),
            ) && crate::common::identity_view(e.identity) == IdentitySpec::FQN(s.fqn@),
            SymbolKind::TypeAlias(a) => e.kind@ == "type_alias"@ && crate::common::opt_seq(e.title) == Some(a.identifier@)
                && crate::common::identity_view(e.identity) == IdentitySpec::FQN(s.fqn@),
            SymbolKind::Parameter(p) => e.kind@ == "parameter"@ && crate::common::opt_seq(e.title) == Some(p.identifier@)
                && crate::common::identity_view(e.identity) == IdentitySpec::FQN(s.fqn@),
            SymbolKind::Property(p) => e.kind@ == "property"@ && crate::common::opt_seq(e.title) == Some(p.identifier@)
                && crate::common::identity_view(e.identity) == IdentitySpec::FQN(s.fqn@),
            SymbolKind::TypeVariable(t) => e.kind@ == "type_constraint"@ && crate::common::opt_seq(e.title) == Some(
                t.identifier@,
            ) && crate::common::identity_view(e.identity) == IdentitySpec::FQN(s.fqn@),
            SymbolKind::TypeConstraint(_) => e.kind@ == "type_constraint"@ && e.title is None
                && crate::common::identity_view(e.identity) == IdentitySpec::Anonymous,
            SymbolKind::Type(t) => match t {
                Type::This => e.kind@ == "this_type"@ && crate::common::opt_seq(e.title) == Some("this"@),
                Type::Rest { .. } => e.kind@ == "rest_type"@,
                Type::Infer(_) => e.kind@ == "infer_type"@,
                Type::Tuple { .. } => e.kind@ == "tuple"@,
                Type::Conditional { .. } | Type::Lookup(_) => e.kind@ == "template_literal_type"@,
                Type::TemplateLiteral(l) => e.kind@ == "template_literal_type"@ && crate::common::opt_seq(e.title) == Some(l@),
                Type::KeyOf(_) => e.kind@ == "keyof"@ && crate::common::opt_seq(e.title) == Some("keyof"@),
                Type::Constructor { .. } => e.kind@ == "parenthesized_type"@ && crate::common::opt_seq(e.title) == Some(
                    "constructor"@,
                ),
                Type::Parenthesized(_) => e.kind@ == "parenthesized_type"@,
                Type::Literal(n) => e.kind@ == "literal"@ && crate::common::opt_seq(e.title) == Some("\""@ + n@ + "\""@),
                Type::TypeOf(n) => e.kind@ == "typeof"@ && crate::common::opt_seq(e.title) == Some("typeof "@ + n@),
                Type::Function { .. } => e.kind@ == "function_type"@,
                Type::Array { .. } => e.kind@ == "array_type"@,
                Type::GenericType { identifier, .. } => e.kind@ == "generic_type"@ && crate::common::opt_seq(e.title)
                    == Some(identifier@),
                Type::Intersection { .. } => e.kind@ == "intersection"@,
                Type::Union { .. } => e.kind@ == "union"@,
                Type::Object { .. } => e.kind@ == "object"@,
                Type::Predefined(n) => e.kind@ == "predefined_type"@ && crate::common::opt_seq(e.title) == Some(n@)
                    && crate::common::identity_view(e.identity) == IdentitySpec::FQN("builtin::"@ + n@),
                Type::Identifier(n, r) => e.kind@ == "predefined_type"@ && crate::common::opt_seq(e.title) == Some(n@)
                    && crate::common::identity_view(e.identity) == match r {
                    Some(f) => IdentitySpec::Reference(f@),
                    None => IdentitySpec::FQN(s.fqn@),
                },
                Type::ReadOnly(v) => v@.len() == 0 ==> e.kind@ == "readonly"@,
            },
        },
{
    assert(e.head() == expected_head(s));
    lemma_head_language(s);
}

proof fn lemma_head_language(s: Symbol)
    ensures
        expected_head(s).language == "ts"@,
    decreases s,
{
    if let SymbolKind::Type(Type::ReadOnly(v)) = s.kind {
        if v@.len() > 0 {
            assert(decreases_to!(s => s.kind));
            assert(decreases_to!(v => v@));
            assert(decreases_to!(s => v@[0]));
            lemma_head_language(v@[0]);
        }
    }
}

} // verus!
