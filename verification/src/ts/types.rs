//! The types that TypeScript code spells out.
use vstd::prelude::*;
use crate::ts::symbol::{
    deref_all, find_first, first_selected, kind_identifier, opt_deref, opt_view, same_type_except_children,
    select, selects, type_children, Selector, Symbol, SymbolContext,
};

verus! {

#[derive(Debug, PartialEq)]
pub enum Type {
    Predefined(String),
    Parenthesized(Vec<Symbol>),
    Literal(String),
    /// This is the case where we have a type alias, and we need to resolve it.
    ///
    /// When the type has been resolved, the second element in the tuple will
    /// contain the FQN of the type.
    Identifier(String, Option<String>),
    Object { raw_string: String, properties: Vec<Symbol> },
    Conditional { members: Vec<Symbol> },
    Union { members: Vec<Symbol> },
    Intersection { members: Vec<Symbol> },
    GenericType { identifier: String, members: Vec<Symbol> },
    Array { members: Vec<Symbol> },
    Tuple { members: Vec<Symbol> },
    Function { members: Vec<Symbol> },
    Rest { members: Vec<Symbol> },
    TypeOf(String),
    /// A template literal type, kept as written.
    TemplateLiteral(String),
    KeyOf(Vec<Symbol>),
    ReadOnly(Vec<Symbol>),
    Lookup(Vec<Symbol>),
    Infer(Vec<Symbol>),
    This,
    Constructor { members: Vec<Symbol> },
}

/// The name a type is known by.
pub open spec fn type_identifier(t: Type) -> Option<Seq<char>>
    decreases t,
{
    match t {
        Type::Predefined(n) => Some(n@),
        Type::Identifier(n, _) => Some(n@),
        Type::Object { raw_string, .. } => Some(raw_string@),
        Type::Conditional { .. } => Some("conditional"@),
        Type::Union { .. } => Some("union"@),
        Type::Intersection { .. } => Some("intersection"@),
        Type::GenericType { identifier, .. } => Some(identifier@),
        Type::Tuple { .. } => Some("tuple"@),
        Type::Array { .. } => Some("array"@),
        Type::Function { .. } => Some("function"@),
        Type::Rest { .. } => Some("rest"@),
        Type::Parenthesized(_) => Some("parenthesized"@),
        Type::TypeOf(n) => Some(n@),
        Type::KeyOf(v) => if v@.len() > 0 { kind_identifier(v@[0].kind) } else { None },
        Type::ReadOnly(v) => if v@.len() > 0 { kind_identifier(v@[0].kind) } else { None },
        Type::Lookup(v) => if v@.len() > 0 { kind_identifier(v@[0].kind) } else { None },
        Type::Literal(n) => Some(n@),
        Type::Infer(_) => Some("infer"@),
        Type::This => Some("this"@),
        Type::TemplateLiteral(n) => Some(n@),
        Type::Constructor { .. } => Some("constructor"@),
    }
}

impl Type {
    /// The name the type is known by; for `keyof`, `readonly` and lookup
    /// types, that of their first member.
    pub fn identifier(&self) -> (r: Option<&str>)
        ensures
            opt_view(r) == type_identifier(*self),
        decreases *self,
    {
        match self {
            Type::Predefined(name) => Some(name.as_str()),
            Type::Identifier(identifier, _) => Some(identifier.as_str()),
            Type::Object { raw_string, .. } => Some(raw_string.as_str()),
            Type::Conditional { .. } => Some("conditional"),
            Type::Union { .. } => Some("union"),
            Type::Intersection { .. } => Some("intersection"),
            Type::GenericType { identifier, .. } => Some(identifier.as_str()),
            Type::Tuple { .. } => Some("tuple"),
            Type::Array { .. } => Some("array"),
            Type::Function { .. } => Some("function"),
            Type::Rest { .. } => Some("rest"),
            Type::Parenthesized(_) => Some("parenthesized"),
            Type::TypeOf(name) => Some(name.as_str()),
            Type::KeyOf(symbol) => if symbol.len() > 0 { symbol[0].kind.identifier() } else { None },
            Type::ReadOnly(symbol) => if symbol.len() > 0 { symbol[0].kind.identifier() } else { None },
            Type::Lookup(symbol) => if symbol.len() > 0 { symbol[0].kind.identifier() } else { None },
            Type::Literal(name) => Some(name.as_str()),
            Type::Infer(_) => Some("infer"),
            Type::This => Some("this"),
            Type::TemplateLiteral(name) => Some(name.as_str()),
            Type::Constructor { .. } => Some("constructor"),
        }
    }

    pub fn children(&self) -> (r: &[Symbol])
        ensures
            r@ == type_children(*self),
    {
        match self {

            Type::Parenthesized(v) => v.as_slice(),
            Type::Object { properties, .. } => properties.as_slice(),
            Type::Conditional { members, .. } => members.as_slice(),
            Type::Union { members, .. } => members.as_slice(),
            Type::Intersection { members, .. } => members.as_slice(),
            Type::GenericType { members, .. } => members.as_slice(),
            Type::Array { members, .. } => members.as_slice(),
            Type::Tuple { members, .. } => members.as_slice(),
            Type::Function { members, .. } => members.as_slice(),
            Type::Rest { members, .. } => members.as_slice(),
            Type::KeyOf(v) => v.as_slice(),
            Type::ReadOnly(v) => v.as_slice(),
            Type::Lookup(v) => v.as_slice(),
            Type::Infer(v) => v.as_slice(),
            Type::Constructor { members, .. } => members.as_slice(),
            _ => &[],
        }
    }

    pub fn children_mut(&mut self) -> (r: &mut [Symbol])
        ensures
            r@ == type_children(*old(self)),
            final(r)@ == type_children(*final(self)),
            same_type_except_children(*old(self), *final(self)),
    {
        match self {
            Type::Parenthesized(v) => v.as_mut_slice(),
            Type::Object { properties, .. } => properties.as_mut_slice(),
            Type::Conditional { members, .. } => members.as_mut_slice(),
            Type::Union { members, .. } => members.as_mut_slice(),
            Type::Intersection { members, .. } => members.as_mut_slice(),
            Type::GenericType { members, .. } => members.as_mut_slice(),
            Type::Array { members, .. } => members.as_mut_slice(),
            Type::Tuple { members, .. } => members.as_mut_slice(),
            Type::Function { members, .. } => members.as_mut_slice(),
            Type::Rest { members, .. } => members.as_mut_slice(),
            Type::KeyOf(v) => v.as_mut_slice(),
            Type::ReadOnly(v) => v.as_mut_slice(),
            Type::Lookup(v) => v.as_mut_slice(),
            Type::Infer(v) => v.as_mut_slice(),
            Type::Constructor { members, .. } => members.as_mut_slice(),
            _ => &mut [],
        }
    }


    /// The first member of a union.
    pub fn union_left(&self) -> (r: Option<&Symbol>)
        ensures
            opt_deref(r) == (match *self {
                Type::Union { members } => if members@.len() > 0 { Some(members@[0]) } else { None },
                _ => None,
            }),
    {
        match self {
            Type::Union { members } => if members.len() > 0 { Some(&members[0]) } else { None },
            _ => None,
        }
    }


    /// The second member of a union.
    pub fn union_right(&self) -> (r: Option<&Symbol>)
        ensures
            opt_deref(r) == (match *self {
                Type::Union { members } => if members@.len() > 1 { Some(members@[1]) } else { None },
                _ => None,
            }),
    {
        match self {
            Type::Union { members } => if members.len() > 1 { Some(&members[1]) } else { None },
            _ => None,
        }
    }


    /// The checked type of a conditional type.
    pub fn conditional_left(&self) -> (r: Option<&Symbol>)
        ensures
            opt_deref(r) == (match *self {
                Type::Conditional { members } => if members@.len() > 0 { Some(members@[0]) } else { None },
                _ => None,
            }),
    {
        match self {
            Type::Conditional { members } => if members.len() > 0 { Some(&members[0]) } else { None },
            _ => None,
        }
    }


    /// The type a conditional type checks against.
    pub fn conditional_right(&self) -> (r: Option<&Symbol>)
        ensures
            opt_deref(r) == (match *self {
                Type::Conditional { members } => if members@.len() > 1 { Some(members@[1]) } else { None },
                _ => None,
            }),
    {
        match self {
            Type::Conditional { members } => if members.len() > 1 { Some(&members[1]) } else { None },
            _ => None,
        }
    }


    /// The type a conditional type takes when the check holds.
    pub fn conditional_consequence(&self) -> (r: Option<&Symbol>)
        ensures
            opt_deref(r) == (match *self {
                Type::Conditional { members } => if members@.len() > 2 { Some(members@[2]) } else { None },
                _ => None,
            }),
    {
        match self {
            Type::Conditional { members } => if members.len() > 2 { Some(&members[2]) } else { None },
            _ => None,
        }
    }


    /// The type a conditional type takes otherwise.
    pub fn conditional_alternative(&self) -> (r: Option<&Symbol>)
        ensures
            opt_deref(r) == (match *self {
                Type::Conditional { members } => if members@.len() > 3 { Some(members@[3]) } else { None },
                _ => None,
            }),
    {
        match self {
            Type::Conditional { members } => if members.len() > 3 { Some(&members[3]) } else { None },
            _ => None,
        }
    }


    /// The first member of an intersection.
    pub fn intersection_left(&self) -> (r: Option<&Symbol>)
        ensures
            opt_deref(r) == (match *self {
                Type::Intersection { members } => if members@.len() > 0 { Some(members@[0]) } else { None },
                _ => None,
            }),
    {
        match self {
            Type::Intersection { members } => if members.len() > 0 { Some(&members[0]) } else { None },
            _ => None,
        }
    }


    /// The second member of an intersection.
    pub fn intersection_right(&self) -> (r: Option<&Symbol>)
        ensures
            opt_deref(r) == (match *self {
                Type::Intersection { members } => if members@.len() > 1 { Some(members@[1]) } else { None },
                _ => None,
            }),
    {
        match self {
            Type::Intersection { members } => if members.len() > 1 { Some(&members[1]) } else { None },
            _ => None,
        }
    }


    /// The parameters of a function type.
    pub fn function_parameters(&self) -> (r: Vec<&Symbol>)
        requires
            *self is Function,
        ensures
            deref_all(r@) == type_children(*self).filter(|s: Symbol| selects(Selector::Parameter, s)),
    {
        select(self.children(), Selector::Parameter)
    }

    /// The return type of a function type.
    pub fn function_return_type(&self) -> (r: Option<&Symbol>)
        requires
            *self is Function,
        ensures
            opt_deref(r) == first_selected(type_children(*self), Selector::Context(SymbolContext::ReturnType)),
    {
        find_first(self.children(), Selector::Context(SymbolContext::ReturnType))
    }

    /// The type variables of a constructor type.
    pub fn constructor_type_variables(&self) -> (r: Vec<&Symbol>)
        requires
            *self is Constructor,
        ensures
            deref_all(r@) == type_children(*self).filter(|s: Symbol| selects(Selector::TypeVariable, s)),
    {
        select(self.children(), Selector::TypeVariable)
    }

    /// The parameters of a constructor type.
    pub fn constructor_parameters(&self) -> (r: Vec<&Symbol>)
        requires
            *self is Constructor,
        ensures
            deref_all(r@) == type_children(*self).filter(|s: Symbol| selects(Selector::Parameter, s)),
    {
        select(self.children(), Selector::Parameter)
    }

    /// The identifier that type resolution looks up for this type.
    pub fn resolvable_identifier(&self) -> (r: Option<&str>)
        ensures
            opt_view(r) == (match *self {
                Type::Identifier(n, _) => Some(n@),
                _ => None,
            }),
    {
        match self {
            Type::Identifier(identifier, _) => Some(identifier.as_str()),
            _ => None,
        }
    }

    /// Points a type identifier at the fully qualified name it names.
    pub fn resolve_type(&mut self, fqn: &str)
        ensures
            match *old(self) {
                Type::Identifier(n, _) => *final(self) matches Type::Identifier(n2, Some(f)) && n2 == n
                    && f@ == fqn@,
                _ => *final(self) == *old(self),
            },
    {
        match self {
            Type::Identifier(_, referred_fqn) => {
                *referred_fqn = Some(fqn.to_owned());
            },
            _ => {},
        }
    }
}

} // verus!
