use vstd::prelude::*;

verus! {

/// Identifies a source document. Raw value zero means "absent"; a present
/// id is the one-based position of its entry in the owning column.
#[derive(Debug, Copy, Clone, PartialEq, Eq, Structural, Hash, PartialOrd, Ord)]
pub struct SourceId(pub u32);

#[derive(Debug, Copy, Clone, PartialEq, Eq, Structural, Hash, PartialOrd, Ord)]
pub struct EnumVariantId(pub u32);

#[derive(Debug, Copy, Clone, PartialEq, Eq, Structural, Hash, PartialOrd, Ord)]
pub struct IdentId(pub u32);

#[derive(Debug, Copy, Clone, PartialEq, Eq, Structural, Hash, PartialOrd, Ord)]
pub struct KeyId(pub u32);

#[derive(Debug, Copy, Clone, PartialEq, Eq, Structural, Hash, PartialOrd, Ord)]
pub struct RefId(pub u32);

#[derive(Debug, Copy, Clone, PartialEq, Eq, Structural, Hash, PartialOrd, Ord)]
pub struct FileId(pub u32);

#[derive(Debug, Copy, Clone, PartialEq, Eq, Structural, Hash, PartialOrd, Ord)]
pub struct StringId(pub u32);

#[derive(Debug, Copy, Clone, PartialEq, Eq, Structural, Hash, PartialOrd, Ord)]
pub struct TypeId(pub u32);

#[derive(Debug, Copy, Clone, PartialEq, Eq, Structural, Hash, PartialOrd, Ord)]
pub struct StructId(pub u32);

#[derive(Debug, Copy, Clone, PartialEq, Eq, Structural, Hash, PartialOrd, Ord)]
pub struct EnumId(pub u32);

#[derive(Debug, Copy, Clone, PartialEq, Eq, Structural, Hash, PartialOrd, Ord)]
pub struct TagId(pub u32);

#[derive(Debug, Copy, Clone, PartialEq, Eq, Structural, Hash, PartialOrd, Ord)]
pub struct EvolveId(pub u32);

#[derive(Debug, Copy, Clone, PartialEq, Eq, Structural, Hash, PartialOrd, Ord)]
pub struct DocId(pub u32);

#[derive(Debug, Copy, Clone, PartialEq, Eq, Structural, Hash, PartialOrd, Ord)]
pub struct ShapeId(pub u32);

#[derive(Debug, Copy, Clone, PartialEq, Eq, Structural, Hash, PartialOrd, Ord)]
pub struct CompilerId(pub u32);

/// Any id that a form of the surface language may evaluate to.
#[derive(Debug, Copy, Clone, PartialEq, Eq, Structural, Hash, PartialOrd, Ord)]
pub enum ResourceId {
    SourceId(SourceId),
    EnumVariantId(EnumVariantId),
    IdentId(IdentId),
    KeyId(KeyId),
    RefId(RefId),
    FileId(FileId),
    StringId(StringId),
    TypeId(TypeId),
    StructId(StructId),
    EnumId(EnumId),
    TagId(TagId),
    EvolveId(EvolveId),
}

/// The column index addressed by a raw id, or `None` for the absent id.
pub open spec fn slot_of(raw: u32) -> Option<int> {
    if raw == 0 {
        None
    } else {
        Some(raw - 1)
    }
}

/// The name of a resource's kind, as it appears in type errors.
pub open spec fn resource_kind_name(r: ResourceId) -> Seq<char> {
    match r {
        ResourceId::SourceId(_) => "source"@,
        ResourceId::EnumVariantId(_) => "enum_variant"@,
        ResourceId::IdentId(_) => "ident"@,
        ResourceId::KeyId(_) => "key"@,
        ResourceId::RefId(_) => "ref"@,
        ResourceId::FileId(_) => "field"@,
        ResourceId::StringId(_) => "string_lit"@,
        ResourceId::TypeId(_) => "type"@,
        ResourceId::StructId(_) => "struct"@,
        ResourceId::EnumId(_) => "enum"@,
        ResourceId::TagId(_) => "tag"@,
        ResourceId::EvolveId(_) => "id"@,
    }
}

impl ResourceId {
    pub fn tty(&self) -> (r: &'static str)
        ensures
            r@ == resource_kind_name(*self),
    {
        match self {
            ResourceId::SourceId(_) => "source",
            ResourceId::EnumVariantId(_) => "enum_variant",
            ResourceId::IdentId(_) => "ident",
            ResourceId::KeyId(_) => "key",
            ResourceId::RefId(_) => "ref",
            ResourceId::FileId(_) => "field",
            ResourceId::StringId(_) => "string_lit",
            ResourceId::TypeId(_) => "type",
            ResourceId::StructId(_) => "struct",
            ResourceId::EnumId(_) => "enum",
            ResourceId::TagId(_) => "tag",
            ResourceId::EvolveId(_) => "id",
        }
    }
}

} // verus!
