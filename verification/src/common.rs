//! The language-independent model: the entities every front end emits,
//! the errors it may report, and fully qualified names.
use vstd::prelude::*;

verus! {

/// Where a piece of text could not be read as UTF-8: the byte range of the
/// syntax node whose text was asked for.
#[derive(Debug, Clone, PartialEq, Eq)]
pub struct Utf8Error {
    pub start_byte: usize,
    pub end_byte: usize,
}

/// What a parse can fail with.
#[derive(Debug, Clone, PartialEq)]
pub enum DossierError {
    /// A node's byte range does not cut the source at character boundaries.
    UTF8Error(Utf8Error),
    /// The syntax tree does not have the shape the parser expects; the
    /// string is the kind of the node at which the parse stopped.
    UnexpectedSyntax(String),
}

#[derive(Debug, Clone, PartialEq)]
pub enum Identity {
    /// The fully qualified name of an entity
    FQN(String),
    /// A reference to another entity via its fully qualified name
    Reference(String),
    Anonymous,
}

impl Identity {
    pub fn is_anonymous(&self) -> (r: bool)
        ensures
            r == (*self is Anonymous),
    {
        match self {
            Identity::Anonymous => true,
            _ => false,
        }
    }
}

/// A value in an entity's metadata.
#[derive(Debug, Clone, PartialEq)]
pub enum MetaValue {
    Flag(bool),
    Text(String),
}

/// One key of an entity's metadata, with its value.
#[derive(Debug, Clone, PartialEq)]
pub struct MetaEntry {
    pub key: String,
    pub value: MetaValue,
}

/// A documented item: a class, function, type, parameter, and so on.
#[derive(Debug, PartialEq)]
pub struct Entity {
    /// The title for the entity. Usually the name of the class/function/module, etc.
    pub title: Option<String>,
    /// A description for the entity. Supports Markdown.
    pub description: String,
    /// The type of the entity. E.g. function, class, module.
    pub kind: String,
    /// Either its fully qualified name, or a reference to another entity.
    pub identity: Identity,
    /// Child entities. E.g. classes may contain functions.
    pub members: Vec<Entity>,
    /// What context the entity is in, e.g. a return type.
    pub member_context: Option<String>,
    /// The language of the entity
    pub language: String,
    /// Where in the sources the entity stands
    pub source: Source,
    /// Arbitrary metadata different types of entities need to store
    pub meta: Vec<MetaEntry>,
}

/// Position in a source file.
#[derive(Debug, Clone, PartialEq, Eq)]
pub struct Position {
    /// The line number of the entity in the source file
    pub row: usize,
    /// The column number on the line
    pub column: usize,
    /// Byte offset from the start of the file for the entity
    pub byte_offset: usize,
}

/// Metadata about the source of an `Entity`
#[derive(Debug, Clone, PartialEq)]
pub struct Source {
    pub file: String,
    pub start_offset_bytes: usize,
    pub end_offset_bytes: usize,
    /// Optional: Git repository URL for the file
    pub repository: Option<String>,
}

/// A metadata value as contracts see it.
pub enum MetaSpec {
    Flag(bool),
    Text(Seq<char>),
}

/// An identity as contracts see it.
pub enum IdentitySpec {
    FQN(Seq<char>),
    Reference(Seq<char>),
    Anonymous,
}

/// Everything of an entity but its members, as contracts see it.
pub struct EntityView {
    pub title: Option<Seq<char>>,
    pub description: Seq<char>,
    pub kind: Seq<char>,
    pub identity: IdentitySpec,
    pub member_context: Option<Seq<char>>,
    pub language: Seq<char>,
    pub source: Source,
    pub meta: Seq<(Seq<char>, MetaSpec)>,
}

pub open spec fn opt_seq(o: Option<String>) -> Option<Seq<char>> {
    match o {
        Some(s) => Some(s@),
        None => None,
    }
}

pub open spec fn identity_view(i: Identity) -> IdentitySpec {
    match i {
        Identity::FQN(s) => IdentitySpec::FQN(s@),
        Identity::Reference(s) => IdentitySpec::Reference(s@),
        Identity::Anonymous => IdentitySpec::Anonymous,
    }
}

pub open spec fn meta_value_view(v: MetaValue) -> MetaSpec {
    match v {
        MetaValue::Flag(b) => MetaSpec::Flag(b),
        MetaValue::Text(t) => MetaSpec::Text(t@),
    }
}

pub open spec fn meta_view(m: Seq<MetaEntry>) -> Seq<(Seq<char>, MetaSpec)> {
    m.map_values(|e: MetaEntry| (e.key@, meta_value_view(e.value)))
}

impl Entity {
    /// Everything of the entity but its members.
    pub open spec fn head(self) -> EntityView {
        EntityView {
            title: opt_seq(self.title),
            description: self.description@,
            kind: self.kind@,
            identity: identity_view(self.identity),
            member_context: opt_seq(self.member_context),
            language: self.language@,
            source: self.source,
            meta: meta_view(self.meta@),
        }
    }
}

/// `m` with `key` set to `value`: replaced where the key is present,
/// added at the end where it is not.
pub open spec fn meta_set(m: Seq<(Seq<char>, MetaSpec)>, key: Seq<char>, value: MetaSpec) -> Seq<(Seq<char>, MetaSpec)> {
    if exists|i: int| 0 <= i < m.len() && m[i].0 == key {
        m.update(choose|i: int| 0 <= i < m.len() && m[i].0 == key && forall|j: int| 0 <= j < i ==> m[j].0 != key, (key, value))
    } else {
        m.push((key, value))
    }
}

/// Sets `key` to `value` in `meta`: replaced where the key is present,
/// added at the end where it is not.
pub fn set_meta(meta: &mut Vec<MetaEntry>, key: &str, value: MetaValue)
    ensures
        meta_view(final(meta)@) == meta_set(meta_view(old(meta)@), key@, meta_value_view(value)),
{
    let ghost m = meta_view(meta@);
    let ghost v = meta_value_view(value);
    let mut i: usize = 0;
    while i < meta.len()
        invariant
            i <= meta@.len(),
            m == meta_view(meta@),
            v == meta_value_view(value),
            meta@ == old(meta)@,
            forall|j: int| 0 <= j < i ==> m[j].0 != key@,
        decreases meta@.len() - i,
    {
        if crate::text::str_eq(meta[i].key.as_str(), key) {
            let ghost idx = i as int;
            assert(m[idx].0 == key@);
            proof {
                let c = choose|k: int| 0 <= k < m.len() && m[k].0 == key@ && forall|j: int| 0 <= j < k ==> m[j].0 != key@;
                if c < idx {
                    assert(m[c].0 != key@);
                }
                if c > idx {
                    assert(m[idx].0 != key@);
                }
                assert(c == idx);
            }
            let entry = MetaEntry { key: key.to_owned(), value };
            assert(entry.key@ == key@);
            assert(meta_value_view(entry.value) == v);
            let ghost before = meta@;
            meta.set(i, entry);
            assert(meta@ == before.update(idx, entry));
            assert(meta_view(meta@) =~= m.update(idx, (key@, v)));
            return;
        }
        i += 1;
    }
    meta.push(MetaEntry { key: key.to_owned(), value });
    assert(meta_view(meta@) =~= m.push((key@, v)));
}

/// `"::"` followed by each of `parts` in turn.
pub open spec fn qualified(parts: Seq<Seq<char>>) -> Seq<char>
    decreases parts.len(),
{
    if parts.len() == 0 {
        Seq::empty()
    } else {
        qualified(parts.drop_last()) + seq![':', ':'] + parts.last()
    }
}

pub proof fn lemma_qualified_push(parts: Seq<Seq<char>>, p: Seq<char>)
    ensures
        qualified(parts.push(p)) == qualified(parts) + seq![':', ':'] + p,
{
    assert(parts.push(p).drop_last() =~= parts);
}

pub proof fn lemma_qualified_concat(a: Seq<Seq<char>>, b: Seq<Seq<char>>)
    ensures
        qualified(a + b) == qualified(a) + qualified(b),
    decreases b.len(),
{
    if b.len() == 0 {
        assert(a + b =~= a);
    } else {
        lemma_qualified_concat(a, b.drop_last());
        assert((a + b).drop_last() =~= a + b.drop_last());
        assert(qualified(a) + (qualified(b.drop_last()) + seq![':', ':'] + b.last()) =~= qualified(
            a,
        ) + qualified(b.drop_last()) + seq![':', ':'] + b.last());
    }
}

/// The views of a vector of strings.
pub open spec fn views(v: Seq<String>) -> Seq<Seq<char>> {
    v.map_values(|s: String| s@)
}

/// Appends `"::"` and `part` to `out`.
pub fn push_part(out: &mut String, part: &str)
    ensures
        final(out)@ == old(out)@ + seq![':', ':'] + part@,
{
    crate::text::push_char(out, ':');
    crate::text::push_char(out, ':');
    out.append(part);
}

/// Appends `"::"` and each of `parts` in turn to `out`.
pub fn push_parts(out: &mut String, parts: &Vec<String>)
    ensures
        final(out)@ == old(out)@ + qualified(views(parts@)),
{
    let mut k: usize = 0;
    while k < parts.len()
        invariant
            k <= parts@.len(),
            out@ == old(out)@ + qualified(views(parts@).take(k as int)),
        decreases parts@.len() - k,
    {
        push_part(out, parts[k].as_str());
        proof {
            let v = views(parts@);
            assert(v.take(k + 1) =~= v.take(k as int).push(parts@[k as int]@));
            lemma_qualified_push(v.take(k as int), parts@[k as int]@);
        }
        k += 1;
    }
    assert(views(parts@).take(parts@.len() as int) =~= views(parts@));
}

/// `s` with every backslash turned into a slash.
pub open spec fn forward_slashes(s: Seq<char>) -> Seq<char> {
    s.map_values(|c: char| if c == '\\' { '/' } else { c })
}

/// A config passed into parsers: the namespace that fully qualified names
/// are generated in.
#[derive(Debug, Clone)]
pub struct Context {
    namespace: Vec<String>,
}

impl View for Context {
    type V = Seq<Seq<char>>;

    closed spec fn view(&self) -> Seq<Seq<char>> {
        views(self.namespace@)
    }
}

impl Context {
    pub fn new() -> (r: Self)
        ensures
            r@ == Seq::<Seq<char>>::empty(),
    {
        let r = Self { namespace: Vec::new() };
        assert(r@ =~= Seq::<Seq<char>>::empty());
        r
    }

    /// Generates a fully qualified name (FQN) from a path, the current namespace,
    /// and a list of parts: the path with `/` as its separator, then `::` and
    /// each part of the namespace, then `::` and each of `parts`.
    ///
    /// For example, a file src/foo/bar.ts and parts of [Interface, methodName]
    /// would yield a FQN of `src/foo/bar.ts::Interface::methodName`.
    pub fn generate_fqn(&self, path: &str, parts: &[&str]) -> (r: String)
        ensures
            r@ == forward_slashes(path@) + qualified(self@) + qualified(
                parts@.map_values(|p: &str| p@),
            ),
    {
        let chars = crate::text::chars_of(path);
        let mut fixed: Vec<char> = Vec::new();
        let mut i: usize = 0;
        while i < chars.len()
            invariant
                i <= chars@.len(),
                fixed@ == forward_slashes(chars@.take(i as int)),
            decreases chars@.len() - i,
        {
            let c = chars[i];
            fixed.push(if c == '\\' { '/' } else { c });
            assert(chars@.take(i + 1) =~= chars@.take(i as int).push(c));
            assert(forward_slashes(chars@.take(i + 1)) =~= forward_slashes(
                chars@.take(i as int),
            ).push(if c == '\\' { '/' } else { c }));
            i += 1;
        }
        assert(chars@.take(chars@.len() as int) =~= chars@);
        let mut fqn = crate::text::string_of(fixed.as_slice());
        push_parts(&mut fqn, &self.namespace);
        let ghost mid = fqn@;
        let ghost pv = parts@.map_values(|p: &str| p@);
        let mut j: usize = 0;
        while j < parts.len()
            invariant
                j <= parts@.len(),
                pv == parts@.map_values(|p: &str| p@),
                fqn@ == mid + qualified(pv.take(j as int)),
            decreases parts@.len() - j,
        {
            push_part(&mut fqn, parts[j]);
            proof {
                assert(pv.take(j + 1) =~= pv.take(j as int).push(parts@[j as int]@));
                lemma_qualified_push(pv.take(j as int), parts@[j as int]@);
            }
            j += 1;
        }
        assert(pv.take(parts@.len() as int) =~= pv);
        fqn
    }

    pub fn push_namespace(&mut self, namespace: &str)
        ensures
            final(self)@ == old(self)@.push(namespace@),
    {
        self.namespace.push(namespace.to_owned());
        assert(self@ =~= old(self)@.push(namespace@));
    }

    pub fn pop_namespace(&mut self)
        ensures
            old(self)@.len() > 0 ==> final(self)@ == old(self)@.drop_last(),
            old(self)@.len() == 0 ==> final(self)@ == old(self)@,
    {
        let _ = self.namespace.pop();
        assert(old(self)@.len() > 0 ==> self@ =~= old(self)@.drop_last());
    }
}


/// Popping a namespace just pushed gives back the namespace there was, and
/// so the same fully qualified names.
pub proof fn law_pop_namespace_undoes_push_namespace(c0: Context, c1: Context, c2: Context, namespace: Seq<char>)
    requires
        c1@ == c0@.push(namespace),
        c1@.len() > 0 ==> c2@ == c1@.drop_last(),
        c1@.len() == 0 ==> c2@ == c1@,
    ensures
        c2@ == c0@,
        forall|path: Seq<char>, parts: Seq<Seq<char>>|
            forward_slashes(path) + qualified(c2@) + qualified(parts) == forward_slashes(path)
                + qualified(c0@) + qualified(parts),
{
    assert(c1@.drop_last() =~= c0@);
}

/// A name generated inside a namespace is the one generated outside it
/// with the namespace inserted after the path's other namespaces.
pub proof fn law_fqn_inside_namespace(c0: Context, c1: Context, namespace: Seq<char>, path: Seq<char>, parts: Seq<Seq<char>>)
    requires
        c1@ == c0@.push(namespace),
    ensures
        forward_slashes(path) + qualified(c1@) + qualified(parts) == forward_slashes(path) + qualified(c0@)
            + seq![':', ':'] + namespace + qualified(parts),
{
    lemma_qualified_push(c0@, namespace);
}

} // verus!
