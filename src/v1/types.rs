use vstd::prelude::*;
use indexmap::{IndexMap, IndexSet};
use crate::v1::index::{tag_index_entries, tag_index_get, tag_index_insert, tag_index_new};
use crate::v1::cst::CstNode;
use crate::v1::ids::{
    CompilerId, DocId, EnumId, EnumVariantId, EvolveId, IdentId, KeyId, RefId, ResourceId, ShapeId,
    SourceId, StructId, TagId,
};

verus! {

/// One segment of an identity path that survives schema versions.
pub enum BetweenVersionsIdSegment {
    U32(u32),
    Uuid(u128),
    String(String),
}

/// The schema-visible face of a declared entity.
pub struct Shape {
    /// unique in the whole package
    pub name: Option<String>,
    pub compiler_id: Option<CompilerId>,
    pub cross_schema_id: Vec<BetweenVersionsIdSegment>,
    pub derived_trace: Vec<CompilerId>,
    /// the shape may take part in event generation
    pub is_ready: bool,
}

/// An enumeration; the variants are distinct and kept in insertion order.
pub enum Enumeration {
    DiscriminantUnion { tag: StructId, variants: IndexSet<EnumVariantId> },
    Elementary {
        id: EvolveId,
        variants: IndexSet<EnumVariantId>,
        default: Option<EnumVariantId>,
        docs: Vec<DocId>,
        tags: Vec<TagId>,
    },
}

pub enum Type {
    Ref(RefId),
    Struct(StructId),
    Enum(EnumId),
}

pub enum EnumVariantKind {
    Unit,
    Type(Type),
    Named(StructId),
}

pub struct EnumVariantNameAstId(pub KeyId);

pub enum EnumVariantName {
    Ast(EnumVariantNameAstId),
    Generated(String),
}

pub struct EnumVariant {
    pub local_id: EvolveId,
    pub compiler_id: Option<CompilerId>,
    pub cross_schema_id: Vec<BetweenVersionsIdSegment>,
    pub derived_trace: Option<Vec<CompilerId>>,
    pub name: EnumVariantName,
    pub tags: IndexSet<TagId>,
    pub docs: Vec<DocId>,
    pub kind: EnumVariantKind,
}

pub struct StructDef {
    pub docs: Vec<DocId>,
    pub fields: Vec<SourceId>,
}

/// A literal default value.
pub enum Value {
    Text(String),
}

pub enum Default {
    Derive,
    Value(Value),
}

pub struct Field {
    pub key: KeyId,
    pub tty: Type,
    pub default: Option<Default>,
    pub tags: Vec<TagId>,
}

/// A keyword as written, split at its colons.
pub struct Key {
    pub segments: Vec<String>,
}

pub struct Ident {
    pub value: String,
}

/// Where a literal stands: its source and byte range `start..end`.
#[derive(Debug, Copy, Clone, PartialEq, Eq, Structural)]
pub struct Span {
    pub source_id: SourceId,
    pub start: usize,
    pub end: usize,
}

/// The span of a node in a source.
pub open spec fn span_of(node: CstNode, source_id: SourceId) -> Span {
    Span { source_id, start: node.start_byte, end: node.end_byte }
}

impl Span {
    /// The span of a node.
    pub fn new(node: &CstNode, source_id: SourceId) -> (r: Span)
        ensures
            r == span_of(*node, source_id),
    {
        Span { source_id, start: node.start_byte, end: node.end_byte }
    }
}

pub enum Source {
    File { path: String },
    Memory { identifier: String },
}

pub enum Struct {
    Plain(StructDef),
    Alternation(StructId, StructId),
    Sum(StructId, StructId),
}

/// A top-level `(def NAME ...)`: the name and what it defines.
pub struct Definition {
    pub ident: IdentId,
    pub interned_ident: InternedIdentId,
    pub define: ResourceId,
}

#[derive(Debug, Copy, Clone, PartialEq, Eq, Structural, Hash)]
pub struct InternedTagId(pub u32);

#[derive(Debug, Copy, Clone, PartialEq, Eq, Structural, Hash)]
pub struct InternedIdentId(pub u32);

pub struct InternedTagName {
    pub value: String,
}

/// An evolution identity: a non-zero local number or a non-zero UUID.
#[derive(Debug, Copy, Clone, PartialEq, Eq, Structural)]
pub enum EvolveTrack {
    Local(u32),
    Uuid(u128),
}

pub enum Tag {
    Word,
    Default(Default),
}


/// A non-zero evolution identity.
pub open spec fn track_nonzero(t: EvolveTrack) -> bool {
    match t {
        EvolveTrack::Local(v) => v != 0,
        EvolveTrack::Uuid(v) => v != 0,
    }
}

/// The raw id of the entry appended to a column that held `len` entries, or
/// `None` where it would not fit in `u32`.
pub fn next_raw(len: usize) -> (r: Option<u32>)
    ensures
        r == (if len < u32::MAX { Some((len + 1) as u32) } else { None }),
{
    if len < 0xffff_ffff {
        Some((len + 1) as u32)
    } else {
        None
    }
}

/// A typed lookup: an id of one kind names an entry of one column of the
/// package, at position `raw - 1`; the absent id and an id past the column's
/// end name nothing.
pub trait StoreAccessor<T> {
    spec fn slot(self, package: &Package) -> Option<T>;

    fn get(self, package: &Package) -> (r: Option<&T>)
        ensures
            match r {
                Some(x) => self.slot(package) == Some(*x),
                None => self.slot(package) is None,
            },
    ;
}

/// The entry of `column` that the raw id `raw` names, if any.
pub open spec fn entry<T>(column: Seq<T>, raw: u32) -> Option<T> {
    if 1 <= raw <= column.len() {
        Some(column[raw - 1])
    } else {
        None
    }
}

fn lookup<T>(column: &Vec<T>, raw: u32) -> (r: Option<&T>)
    ensures
        match r {
            Some(x) => entry(column@, raw) == Some(*x),
            None => entry(column@, raw) is None,
        },
{
    if raw == 0 || raw as usize > column.len() {
        None
    } else {
        Some(&column[(raw - 1) as usize])
    }
}

impl StoreAccessor<EvolveTrack> for EvolveId {
    open spec fn slot(self, package: &Package) -> Option<EvolveTrack> {
        entry(package.evolution_ids@, self.0)
    }

    fn get(self, package: &Package) -> (r: Option<&EvolveTrack>) {
        lookup(&package.evolution_ids, self.0)
    }
}

impl StoreAccessor<Enumeration> for EnumId {
    open spec fn slot(self, package: &Package) -> Option<Enumeration> {
        entry(package.enumerations@, self.0)
    }

    fn get(self, package: &Package) -> (r: Option<&Enumeration>) {
        lookup(&package.enumerations, self.0)
    }
}

impl StoreAccessor<ShapeId> for EnumId {
    open spec fn slot(self, package: &Package) -> Option<ShapeId> {
        entry(package.enumeration_shape@, self.0)
    }

    fn get(self, package: &Package) -> (r: Option<&ShapeId>) {
        lookup(&package.enumeration_shape, self.0)
    }
}

impl StoreAccessor<Shape> for ShapeId {
    open spec fn slot(self, package: &Package) -> Option<Shape> {
        entry(package.shapes@, self.0)
    }

    fn get(self, package: &Package) -> (r: Option<&Shape>) {
        lookup(&package.shapes, self.0)
    }
}

impl StoreAccessor<EnumVariant> for EnumVariantId {
    open spec fn slot(self, package: &Package) -> Option<EnumVariant> {
        entry(package.enum_variant@, self.0)
    }

    fn get(self, package: &Package) -> (r: Option<&EnumVariant>) {
        lookup(&package.enum_variant, self.0)
    }
}

/// Id monotonicity: a column only grows at its end and an id is the one-based
/// position of the entry it was allocated for, so of two allocations on one
/// column the later id is the larger, and the earlier id still names its
/// entry.
pub proof fn lemma_ids_monotone<T>(c0: Seq<T>, x: T, first: u32, c1: Seq<T>, y: T, second: u32, c2: Seq<T>)
    requires
        first == c0.len() + 1,
        c1.len() >= first,
        c1.subrange(0, first as int) == c0.push(x),
        second == c1.len() + 1,
        c2.len() >= second,
        c2.subrange(0, second as int) == c1.push(y),
    ensures
        first < second,
        c2[first - 1] == x,
        c2[second - 1] == y,
{
    assert(c2[first - 1] == c2.subrange(0, second as int)[first - 1]);
    assert(c1.push(y)[first - 1] == c1[first - 1]);
    assert(c1[first - 1] == c1.subrange(0, first as int)[first - 1]);
    assert(c2[second - 1] == c2.subrange(0, second as int)[second - 1]);
}

/// The columnar store of every declared entity. Each column is extended only
/// at its end; an id is the one-based position of its entry.
pub struct Package {
    /// interned tag names and their ids
    pub reverse_interned_tag: IndexMap<String, InternedTagId>,
    pub interned_tags: Vec<InternedTagName>,
    /// tags as they appear in the source
    pub lit_tags: Vec<Tag>,
    pub lit_tags_span: Vec<Span>,
    pub lit_tags_interned: Vec<InternedTagId>,
    pub definitions: Vec<Definition>,
    pub definitions_spans: Vec<Span>,
    pub references: Vec<InternedIdentId>,
    pub references_spans: Vec<Span>,
    pub strings: Vec<String>,
    pub strings_spans: Vec<Span>,
    pub fields: Vec<Field>,
    pub fields_span: Vec<Span>,
    pub idents: Vec<Ident>,
    pub idents_span: Vec<Span>,
    pub enumerations: Vec<Enumeration>,
    pub enumerations_span: Vec<Option<Span>>,
    pub enumeration_shape: Vec<ShapeId>,
    pub keys: Vec<Key>,
    pub keys_span: Vec<Span>,
    pub structs: Vec<Struct>,
    pub structs_span: Vec<Span>,
    pub evolution_ids: Vec<EvolveTrack>,
    pub evolution_span: Vec<Span>,
    pub sources: Vec<Source>,
    pub shapes: Vec<Shape>,
    pub enum_variant: Vec<EnumVariant>,
    pub enum_variant_span: Vec<Option<Span>>,
    pub docs: Vec<String>,
    pub docs_span: Vec<Span>,
}

impl core::default::Default for Package {
    /// An empty package.
    fn default() -> (r: Package)
        ensures
            r.wf(),
    {
        Package::new()
    }
}

impl Package {
    /// Every column runs parallel to its span column, evolution ids are
    /// non-zero, and the tag index names exactly the interned tags.
    pub open spec fn wf(&self) -> bool {
        &&& self.lit_tags@.len() == self.lit_tags_span@.len()
        &&& self.lit_tags@.len() == self.lit_tags_interned@.len()
        &&& self.definitions@.len() == self.definitions_spans@.len()
        &&& self.references@.len() == self.references_spans@.len()
        &&& self.strings@.len() == self.strings_spans@.len()
        &&& self.fields@.len() == self.fields_span@.len()
        &&& self.idents@.len() == self.idents_span@.len()
        &&& self.enumerations@.len() == self.enumerations_span@.len()
        &&& self.enumerations@.len() == self.enumeration_shape@.len()
        &&& self.keys@.len() == self.keys_span@.len()
        &&& self.structs@.len() == self.structs_span@.len()
        &&& self.evolution_ids@.len() == self.evolution_span@.len()
        &&& self.enum_variant@.len() == self.enum_variant_span@.len()
        &&& self.docs@.len() == self.docs_span@.len()
        &&& forall|i: int| 0 <= i < self.evolution_ids@.len() ==> track_nonzero(#[trigger] self.evolution_ids@[i])
        &&& forall|k: Seq<char>| #[trigger] tag_index_entries(self.reverse_interned_tag).contains_key(k) ==> {
            let t = tag_index_entries(self.reverse_interned_tag)[k];
            1 <= t.0 <= self.interned_tags@.len() && self.interned_tags@[t.0 - 1].value@ == k
        }
    }

    /// The entry that a typed id names, if any.
    pub fn get<T, K: StoreAccessor<T>>(&self, k: K) -> (r: Option<&T>)
        ensures
            match r {
                Some(x) => k.slot(self) == Some(*x),
                None => k.slot(self) is None,
            },
    {
        k.get(self)
    }

    /// An empty package.
    pub fn new() -> (r: Package)
        ensures
            r.wf(),
            r.evolution_ids@.len() == 0,
            r.enumerations@.len() == 0,
            r.enum_variant@.len() == 0,
            r.shapes@.len() == 0,
            r.definitions@.len() == 0,
            r.lit_tags@.len() == 0,
            r.docs@.len() == 0,
            r.interned_tags@.len() == 0,
    {
        Package {
            reverse_interned_tag: tag_index_new(),
            interned_tags: Vec::new(),
            lit_tags: Vec::new(),
            lit_tags_span: Vec::new(),
            lit_tags_interned: Vec::new(),
            definitions: Vec::new(),
            definitions_spans: Vec::new(),
            references: Vec::new(),
            references_spans: Vec::new(),
            strings: Vec::new(),
            strings_spans: Vec::new(),
            fields: Vec::new(),
            fields_span: Vec::new(),
            idents: Vec::new(),
            idents_span: Vec::new(),
            enumerations: Vec::new(),
            enumerations_span: Vec::new(),
            enumeration_shape: Vec::new(),
            keys: Vec::new(),
            keys_span: Vec::new(),
            structs: Vec::new(),
            structs_span: Vec::new(),
            evolution_ids: Vec::new(),
            evolution_span: Vec::new(),
            sources: Vec::new(),
            shapes: Vec::new(),
            enum_variant: Vec::new(),
            enum_variant_span: Vec::new(),
            docs: Vec::new(),
            docs_span: Vec::new(),
        }
    }

    /// Records an evolution identity written at `node`; `None`, and nothing
    /// changed, where the column is full.
    pub fn add_evolve_id(&mut self, node: &CstNode, source_id: SourceId, et: EvolveTrack) -> (r: Option<EvolveId>)
        requires
            old(self).wf(),
            track_nonzero(et),
        ensures
            final(self).wf(),
            r is Some <==> old(self).evolution_ids@.len() < u32::MAX,
            r matches Some(id) ==> {
                &&& id.0 == old(self).evolution_ids@.len() + 1
                &&& final(self).evolution_ids@ == old(self).evolution_ids@.push(et)
                &&& final(self).evolution_span@ == old(self).evolution_span@.push(span_of(*node, source_id))
                &&& final(self).lit_tags@ == old(self).lit_tags@
                &&& final(self).lit_tags_interned@ == old(self).lit_tags_interned@
                &&& final(self).interned_tags@ == old(self).interned_tags@
                &&& final(self).docs@ == old(self).docs@
                &&& final(self).keys@ == old(self).keys@
                &&& final(self).enum_variant@ == old(self).enum_variant@
                &&& final(self).shapes@ == old(self).shapes@
                &&& final(self).enumerations@ == old(self).enumerations@
                &&& final(self).idents@ == old(self).idents@
                &&& final(self).definitions@ == old(self).definitions@
            },
            r is None ==> *final(self) == *old(self),
            defs_same(*final(self), *old(self)),
            grows_within(*final(self), *old(self), 1),
    {
        let raw = match next_raw(self.evolution_ids.len()) {
            Some(raw) => raw,
            None => return None,
        };
        self.evolution_ids.push(et);
        self.evolution_span.push(Span::new(node, source_id));
        Some(EvolveId(raw))
    }

    /// The id of a tag name, interning it first if it is new; `None`, and
    /// nothing changed, where the name is new and the intern table is full.
    pub fn intern_tag(&mut self, name: &str) -> (r: Option<InternedTagId>)
        requires
            old(self).wf(),
        ensures
            final(self).wf(),
            tag_index_entries(old(self).reverse_interned_tag).contains_key(name@) ==> r == Some(
                tag_index_entries(old(self).reverse_interned_tag)[name@],
            ) && *final(self) == *old(self),
            !tag_index_entries(old(self).reverse_interned_tag).contains_key(name@) ==> (r is Some
                <==> old(self).interned_tags@.len() < u32::MAX),
            !tag_index_entries(old(self).reverse_interned_tag).contains_key(name@) && r is Some ==> r == Some(
                InternedTagId((old(self).interned_tags@.len() + 1) as u32),
            ) && final(self).interned_tags@.len() == old(self).interned_tags@.len() + 1
                && final(self).interned_tags@.last().value@ == name@
                && final(self).interned_tags@.subrange(0, old(self).interned_tags@.len() as int)
                == old(self).interned_tags@,
            r is None ==> *final(self) == *old(self),
            r matches Some(t) ==> 1 <= t.0 <= final(self).interned_tags@.len()
                && final(self).interned_tags@[t.0 - 1].value@ == name@,
            final(self).lit_tags@ == old(self).lit_tags@,
            final(self).lit_tags_span@ == old(self).lit_tags_span@,
            final(self).lit_tags_interned@ == old(self).lit_tags_interned@,
            final(self).evolution_ids@ == old(self).evolution_ids@,
            final(self).enumerations@ == old(self).enumerations@,
            final(self).enum_variant@ == old(self).enum_variant@,
            final(self).shapes@ == old(self).shapes@,
            final(self).docs@ == old(self).docs@,
            final(self).keys@ == old(self).keys@,
            final(self).idents@ == old(self).idents@,
            final(self).definitions@ == old(self).definitions@,
            defs_same(*final(self), *old(self)),
            grows_within(*final(self), *old(self), 1),
    {
        match tag_index_get(&self.reverse_interned_tag, name) {
            Some(t) => {
                return Some(t);
            },
            None => {},
        }
        let raw = match next_raw(self.interned_tags.len()) {
            Some(raw) => raw,
            None => return None,
        };
        let t = InternedTagId(raw);
        self.interned_tags.push(InternedTagName { value: String::from_str(name) });
        tag_index_insert(&mut self.reverse_interned_tag, String::from_str(name), t);
        proof {
            let m = tag_index_entries(self.reverse_interned_tag);
            assert forall|k: Seq<char>| #[trigger] m.contains_key(k) implies {
                let u = m[k];
                1 <= u.0 <= self.interned_tags@.len() && self.interned_tags@[u.0 - 1].value@ == k
            } by {
                if k != name@ {
                    assert(tag_index_entries(old(self).reverse_interned_tag).contains_key(k));
                }
            }
            assert(self.interned_tags@.subrange(0, old(self).interned_tags@.len() as int) == old(self).interned_tags@);
        }
        Some(t)
    }

    /// Records a tag written at `node` under the name `name`, interning the
    /// name; `None`, and nothing changed, where the tag column is full or the
    /// name is new and the intern table is full.
    pub fn add_tag(&mut self, node: &CstNode, source_id: SourceId, t: Tag, name: &str) -> (r: Option<TagId>)
        requires
            old(self).wf(),
        ensures
            final(self).wf(),
            r is Some <==> old(self).lit_tags@.len() < u32::MAX && (tag_index_entries(
                old(self).reverse_interned_tag,
            ).contains_key(name@) || old(self).interned_tags@.len() < u32::MAX),
            r matches Some(id) ==> {
                &&& id.0 == old(self).lit_tags@.len() + 1
                &&& final(self).lit_tags@ == old(self).lit_tags@.push(t)
                &&& final(self).lit_tags_span@ == old(self).lit_tags_span@.push(span_of(*node, source_id))
                &&& final(self).lit_tags_interned@.len() == id.0
                &&& final(self).lit_tags_interned@.subrange(0, old(self).lit_tags@.len() as int)
                    == old(self).lit_tags_interned@
                &&& 1 <= final(self).lit_tags_interned@.last().0 <= final(self).interned_tags@.len()
                &&& final(self).interned_tags@[final(self).lit_tags_interned@.last().0 - 1].value@ == name@
                &&& (tag_index_entries(old(self).reverse_interned_tag).contains_key(name@)
                    ==> final(self).lit_tags_interned@.last() == tag_index_entries(old(self).reverse_interned_tag)[name@])
                &&& final(self).interned_tags@.subrange(0, old(self).interned_tags@.len() as int)
                    == old(self).interned_tags@
            },
            r is None ==> *final(self) == *old(self),
            final(self).evolution_ids@ == old(self).evolution_ids@,
            final(self).enumerations@ == old(self).enumerations@,
            final(self).enum_variant@ == old(self).enum_variant@,
            final(self).shapes@ == old(self).shapes@,
            final(self).docs@ == old(self).docs@,
            final(self).keys@ == old(self).keys@,
            final(self).idents@ == old(self).idents@,
            final(self).definitions@ == old(self).definitions@,
            defs_same(*final(self), *old(self)),
            grows_within(*final(self), *old(self), 1),
    {
        let raw = match next_raw(self.lit_tags.len()) {
            Some(raw) => raw,
            None => return None,
        };
        let interned = match self.intern_tag(name) {
            Some(i) => i,
            None => return None,
        };
        self.lit_tags.push(t);
        self.lit_tags_span.push(Span::new(node, source_id));
        let ghost before = self.lit_tags_interned@;
        self.lit_tags_interned.push(interned);
        assert(self.lit_tags_interned@.subrange(0, old(self).lit_tags@.len() as int) == before);
        proof {
            if !tag_index_entries(old(self).reverse_interned_tag).contains_key(name@) {
                assert(self.interned_tags@.subrange(0, old(self).interned_tags@.len() as int) == old(self).interned_tags@);
            } else {
                assert(self.interned_tags@ == old(self).interned_tags@);
                assert(self.interned_tags@.subrange(0, old(self).interned_tags@.len() as int) == old(self).interned_tags@);
            }
        }
        Some(TagId(raw))
    }

    /// Records a documentation text written at `node`; `None`, and nothing
    /// changed, where the column is full.
    pub fn add_doc(&mut self, node: &CstNode, source_id: SourceId, text: String) -> (r: Option<DocId>)
        requires
            old(self).wf(),
        ensures
            final(self).wf(),
            r is Some <==> old(self).docs@.len() < u32::MAX,
            r matches Some(id) ==> id.0 == old(self).docs@.len() + 1 && final(self).docs@ == old(self).docs@.push(text)
                && final(self).docs_span@ == old(self).docs_span@.push(span_of(*node, source_id)),
            r is None ==> *final(self) == *old(self),
            final(self).lit_tags@ == old(self).lit_tags@,
            final(self).lit_tags_interned@ == old(self).lit_tags_interned@,
            final(self).evolution_ids@ == old(self).evolution_ids@,
            final(self).enumerations@ == old(self).enumerations@,
            final(self).enum_variant@ == old(self).enum_variant@,
            final(self).shapes@ == old(self).shapes@,
            final(self).keys@ == old(self).keys@,
            final(self).interned_tags@ == old(self).interned_tags@,
            final(self).idents@ == old(self).idents@,
            final(self).definitions@ == old(self).definitions@,
            defs_same(*final(self), *old(self)),
            grows_within(*final(self), *old(self), 1),
    {
        let raw = match next_raw(self.docs.len()) {
            Some(raw) => raw,
            None => return None,
        };
        self.docs.push(text);
        self.docs_span.push(Span::new(node, source_id));
        Some(DocId(raw))
    }

    /// Records a keyword written at `node`, split at its colons; `None`, and
    /// nothing changed, where the column is full.
    pub fn add_key(&mut self, node: &CstNode, source_id: SourceId, key: Key) -> (r: Option<KeyId>)
        requires
            old(self).wf(),
        ensures
            final(self).wf(),
            r is Some <==> old(self).keys@.len() < u32::MAX,
            r matches Some(id) ==> id.0 == old(self).keys@.len() + 1 && final(self).keys@ == old(self).keys@.push(key)
                && final(self).keys_span@ == old(self).keys_span@.push(span_of(*node, source_id)),
            r is None ==> *final(self) == *old(self),
            final(self).lit_tags@ == old(self).lit_tags@,
            final(self).lit_tags_interned@ == old(self).lit_tags_interned@,
            final(self).evolution_ids@ == old(self).evolution_ids@,
            final(self).enumerations@ == old(self).enumerations@,
            final(self).enum_variant@ == old(self).enum_variant@,
            final(self).shapes@ == old(self).shapes@,
            final(self).docs@ == old(self).docs@,
            final(self).interned_tags@ == old(self).interned_tags@,
            final(self).idents@ == old(self).idents@,
            final(self).definitions@ == old(self).definitions@,
            defs_same(*final(self), *old(self)),
            grows_within(*final(self), *old(self), 1),
    {
        let raw = match next_raw(self.keys.len()) {
            Some(raw) => raw,
            None => return None,
        };
        self.keys.push(key);
        self.keys_span.push(Span::new(node, source_id));
        Some(KeyId(raw))
    }

    /// Records an enum variant declared at `span`; `None`, and nothing
    /// changed, where the column is full.
    pub fn add_enum_variant(&mut self, v: EnumVariant, span: Option<Span>) -> (r: Option<EnumVariantId>)
        requires
            old(self).wf(),
        ensures
            final(self).wf(),
            r is Some <==> old(self).enum_variant@.len() < u32::MAX,
            r matches Some(id) ==> id.0 == old(self).enum_variant@.len() + 1
                && final(self).enum_variant@ == old(self).enum_variant@.push(v)
                && final(self).enum_variant_span@ == old(self).enum_variant_span@.push(span),
            r is None ==> *final(self) == *old(self),
            final(self).lit_tags@ == old(self).lit_tags@,
            final(self).lit_tags_interned@ == old(self).lit_tags_interned@,
            final(self).evolution_ids@ == old(self).evolution_ids@,
            final(self).enumerations@ == old(self).enumerations@,
            final(self).shapes@ == old(self).shapes@,
            final(self).docs@ == old(self).docs@,
            final(self).keys@ == old(self).keys@,
            final(self).interned_tags@ == old(self).interned_tags@,
            final(self).idents@ == old(self).idents@,
            final(self).definitions@ == old(self).definitions@,
            defs_same(*final(self), *old(self)),
            grows_within(*final(self), *old(self), 1),
    {
        let raw = match next_raw(self.enum_variant.len()) {
            Some(raw) => raw,
            None => return None,
        };
        self.enum_variant.push(v);
        self.enum_variant_span.push(span);
        Some(EnumVariantId(raw))
    }

    /// Records a shape; `None`, and nothing changed, where the column is full.
    pub fn add_shape(&mut self, s: Shape) -> (r: Option<ShapeId>)
        requires
            old(self).wf(),
        ensures
            final(self).wf(),
            r is Some <==> old(self).shapes@.len() < u32::MAX,
            r matches Some(id) ==> id.0 == old(self).shapes@.len() + 1 && final(self).shapes@ == old(self).shapes@.push(s),
            r is None ==> *final(self) == *old(self),
            final(self).lit_tags@ == old(self).lit_tags@,
            final(self).evolution_ids@ == old(self).evolution_ids@,
            final(self).enumerations@ == old(self).enumerations@,
            final(self).enum_variant@ == old(self).enum_variant@,
            final(self).docs@ == old(self).docs@,
            final(self).keys@ == old(self).keys@,
            final(self).interned_tags@ == old(self).interned_tags@,
            final(self).idents@ == old(self).idents@,
            final(self).definitions@ == old(self).definitions@,
            final(self).lit_tags_interned@ == old(self).lit_tags_interned@,
            defs_same(*final(self), *old(self)),
            grows_within(*final(self), *old(self), 1),
    {
        let raw = match next_raw(self.shapes.len()) {
            Some(raw) => raw,
            None => return None,
        };
        self.shapes.push(s);
        Some(ShapeId(raw))
    }

    /// Records an enumeration declared at `span`, whose shape is `shape`;
    /// `None`, and nothing changed, where the column is full.
    pub fn add_enumeration(&mut self, e: Enumeration, span: Option<Span>, shape: ShapeId) -> (r: Option<EnumId>)
        requires
            old(self).wf(),
        ensures
            final(self).wf(),
            r is Some <==> old(self).enumerations@.len() < u32::MAX,
            r matches Some(id) ==> id.0 == old(self).enumerations@.len() + 1
                && final(self).enumerations@ == old(self).enumerations@.push(e)
                && final(self).enumerations_span@ == old(self).enumerations_span@.push(span)
                && final(self).enumeration_shape@ == old(self).enumeration_shape@.push(shape),
            r is None ==> *final(self) == *old(self),
            final(self).lit_tags@ == old(self).lit_tags@,
            final(self).evolution_ids@ == old(self).evolution_ids@,
            final(self).enum_variant@ == old(self).enum_variant@,
            final(self).shapes@ == old(self).shapes@,
            final(self).docs@ == old(self).docs@,
            final(self).keys@ == old(self).keys@,
            final(self).interned_tags@ == old(self).interned_tags@,
            final(self).idents@ == old(self).idents@,
            final(self).definitions@ == old(self).definitions@,
            final(self).lit_tags_interned@ == old(self).lit_tags_interned@,
            defs_same(*final(self), *old(self)),
            grows_within(*final(self), *old(self), 1),
    {
        let raw = match next_raw(self.enumerations.len()) {
            Some(raw) => raw,
            None => return None,
        };
        self.enumerations.push(e);
        self.enumerations_span.push(span);
        self.enumeration_shape.push(shape);
        Some(EnumId(raw))
    }

    /// Records an identifier written at `node`; `None`, and nothing changed,
    /// where the column is full.
    pub fn add_ident(&mut self, node: &CstNode, source_id: SourceId, value: String) -> (r: Option<IdentId>)
        requires
            old(self).wf(),
        ensures
            final(self).wf(),
            r is Some <==> old(self).idents@.len() < u32::MAX,
            r matches Some(id) ==> id.0 == old(self).idents@.len() + 1
                && final(self).idents@ == old(self).idents@.push(Ident { value })
                && final(self).idents_span@ == old(self).idents_span@.push(span_of(*node, source_id)),
            r is None ==> *final(self) == *old(self),
            final(self).lit_tags@ == old(self).lit_tags@,
            final(self).evolution_ids@ == old(self).evolution_ids@,
            final(self).enumerations@ == old(self).enumerations@,
            final(self).enum_variant@ == old(self).enum_variant@,
            final(self).shapes@ == old(self).shapes@,
            final(self).docs@ == old(self).docs@,
            final(self).keys@ == old(self).keys@,
            final(self).interned_tags@ == old(self).interned_tags@,
            final(self).definitions@ == old(self).definitions@,
            final(self).lit_tags_interned@ == old(self).lit_tags_interned@,
            final(self).definitions_spans@ == old(self).definitions_spans@,
            grows_within(*final(self), *old(self), 1),
    {
        let raw = match next_raw(self.idents.len()) {
            Some(raw) => raw,
            None => return None,
        };
        self.idents.push(Ident { value });
        self.idents_span.push(Span::new(node, source_id));
        Some(IdentId(raw))
    }

    /// Records a definition written at `node`; `false`, and nothing changed,
    /// where the column is full.
    pub fn add_definition(&mut self, node: &CstNode, source_id: SourceId, d: Definition) -> (r: bool)
        requires
            old(self).wf(),
        ensures
            final(self).wf(),
            r <==> old(self).definitions@.len() < u32::MAX,
            r ==> final(self).definitions@ == old(self).definitions@.push(d)
                && final(self).definitions_spans@ == old(self).definitions_spans@.push(span_of(*node, source_id)),
            !r ==> *final(self) == *old(self),
            final(self).lit_tags@ == old(self).lit_tags@,
            final(self).evolution_ids@ == old(self).evolution_ids@,
            final(self).enumerations@ == old(self).enumerations@,
            final(self).enum_variant@ == old(self).enum_variant@,
            final(self).shapes@ == old(self).shapes@,
            final(self).docs@ == old(self).docs@,
            final(self).keys@ == old(self).keys@,
            final(self).interned_tags@ == old(self).interned_tags@,
            final(self).idents@ == old(self).idents@,
            final(self).lit_tags_interned@ == old(self).lit_tags_interned@,
            grows_within(*final(self), *old(self), 1),
    {
        if self.definitions.len() >= 0xffff_ffff {
            return false;
        }
        self.definitions.push(d);
        self.definitions_spans.push(Span::new(node, source_id));
        true
    }
}

/// `p2` has the identifiers and definitions of `p1`, unchanged.
pub open spec fn defs_same(p2: Package, p1: Package) -> bool {
    &&& p2.idents@ == p1.idents@
    &&& p2.definitions@ == p1.definitions@
    &&& p2.definitions_spans@ == p1.definitions_spans@
}

/// Every column that the evaluator extends has room for `k` more entries.
pub open spec fn room(p: Package, k: nat) -> bool {
    &&& p.evolution_ids@.len() + k <= u32::MAX
    &&& p.lit_tags@.len() + k <= u32::MAX
    &&& p.interned_tags@.len() + k <= u32::MAX
    &&& p.docs@.len() + k <= u32::MAX
    &&& p.keys@.len() + k <= u32::MAX
    &&& p.enum_variant@.len() + k <= u32::MAX
    &&& p.shapes@.len() + k <= u32::MAX
    &&& p.enumerations@.len() + k <= u32::MAX
    &&& p.idents@.len() + k <= u32::MAX
    &&& p.definitions@.len() + k <= u32::MAX
}

/// Every column of `p2` holds at least the entries of `p1`'s and at most `k`
/// more.
pub open spec fn grows_within(p2: Package, p1: Package, k: nat) -> bool {
    &&& p1.evolution_ids@.len() <= p2.evolution_ids@.len() <= p1.evolution_ids@.len() + k
    &&& p1.lit_tags@.len() <= p2.lit_tags@.len() <= p1.lit_tags@.len() + k
    &&& p1.interned_tags@.len() <= p2.interned_tags@.len() <= p1.interned_tags@.len() + k
    &&& p1.docs@.len() <= p2.docs@.len() <= p1.docs@.len() + k
    &&& p1.keys@.len() <= p2.keys@.len() <= p1.keys@.len() + k
    &&& p1.enum_variant@.len() <= p2.enum_variant@.len() <= p1.enum_variant@.len() + k
    &&& p1.shapes@.len() <= p2.shapes@.len() <= p1.shapes@.len() + k
    &&& p1.enumerations@.len() <= p2.enumerations@.len() <= p1.enumerations@.len() + k
    &&& p1.idents@.len() <= p2.idents@.len() <= p1.idents@.len() + k
    &&& p1.definitions@.len() <= p2.definitions@.len() <= p1.definitions@.len() + k
}

pub proof fn lemma_grows_within_trans(p1: Package, p2: Package, p3: Package, a: nat, b: nat)
    requires
        grows_within(p2, p1, a),
        grows_within(p3, p2, b),
    ensures
        grows_within(p3, p1, a + b),
{
}

pub proof fn lemma_grows_within_weaken(p1: Package, p2: Package, a: nat, b: nat)
    requires
        grows_within(p2, p1, a),
        a <= b,
    ensures
        grows_within(p2, p1, b),
{
}

pub proof fn lemma_grows_within_refl(p: Package)
    ensures
        grows_within(p, p, 0),
{
}

/// With room for `k` entries and fewer than `k` used, no column is full.
pub proof fn lemma_room_left(p1: Package, p2: Package, used: nat, k: nat)
    requires
        room(p1, k),
        grows_within(p2, p1, used),
        used < k,
    ensures
        room(p2, 1),
{
}

} // verus!
