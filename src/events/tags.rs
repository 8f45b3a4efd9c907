use vstd::prelude::*;

verus! {

/// The tags of the event stream.
#[derive(Debug, Copy, Clone, PartialEq, Eq, Structural, Hash, PartialOrd, Ord)]
pub enum EventTag {
    /// an elementary enum only contains unit variants;
    /// tag and content properties are not defined
    ElementaryEnum,
    /// a key-value pair, used as field or property
    Field,
    /// the key of a field
    FieldKey,
    /// the value of a field
    FieldValue,
    /// a string value
    String,
    /// a global unique identifier value in uuid format
    GlobalIdentifier,
    /// an u32 as local identifier
    LocalIdentifier,
    /// an identifier that will be stable while transpiling the schema
    CompilerIdentifier,
    /// an identifier that will be stable while the schema evolves
    EvolutionaryIdentifier,
    /// an enum variant name
    EnumVariantName,
    /// an enum variant without fields
    EnumVariantUnit,
    /// list of documentation strings
    Documentation,
    /// list of tags
    Tags,
    /// a u32 value
    U32,
    /// a uuid value
    Uuid,
    /// unique name of the shape within a package
    ShapeName,
    /// if the entity was derived from another, the chain of the compiler ids
    /// it was derived from
    DerivedTrace,
    Shape,
}

pub enum EventPatternValue {
    String(String),
    Identifier(String),
    VariantName(String),
}

/// The leaf tags: they carry a payload and no pattern.
pub open spec fn spec_is_terminal(t: EventTag) -> bool {
    t == EventTag::String || t == EventTag::EnumVariantName || t == EventTag::U32
}

/// The grammar of the subtrees rooted at each non-terminal tag.
pub open spec fn pattern_of(t: EventTag) -> Option<Seq<char>> {
    match t {
        EventTag::ElementaryEnum => Some(ELEMENTARY_ENUM_PATTERN@),
        EventTag::Field => Some("(Field FieldKey FieldValue)"@),
        EventTag::FieldKey => Some("(FieldKey _)"@),
        EventTag::FieldValue => Some("(FieldValue (+ _))"@),
        EventTag::String => None,
        EventTag::EnumVariantName => None,
        EventTag::EnumVariantUnit => Some(ENUM_VARIANT_UNIT_PATTERN@),
        EventTag::Documentation => Some("(Documentation (+ String))"@),
        EventTag::Tags => Some("(Tags (+ String))"@),
        EventTag::GlobalIdentifier => Some("(GlobalIdentifier Uuid)"@),
        EventTag::LocalIdentifier => Some("(LocalIdentifier U32)"@),
        EventTag::U32 => None,
        EventTag::Uuid => Some("(Uuid String)"@),
        EventTag::CompilerIdentifier => Some("(CompilerIdentifier U32)"@),
        EventTag::EvolutionaryIdentifier => Some("(EvolutionaryIdentifier (+ (| String Uuid U32)))"@),
        EventTag::ShapeName => Some("(ShapeName String)"@),
        EventTag::DerivedTrace => Some("(DerivedTrace (+ CompilerIdentifier))"@),
        EventTag::Shape => Some(SHAPE_PATTERN@),
    }
}

pub const ELEMENTARY_ENUM_PATTERN: &'static str = "(ElementaryEnum Shape (| LocalIdentifier GlobalIdentifier) (Field (FieldKey (String \"variants\")) (FieldValue (+ EnumVariantUnit))) (? (Field (FieldKey (String \"default\")) (FieldValue CompilerIdentifier))) (? Documentation) (? Tags))";

pub const ENUM_VARIANT_UNIT_PATTERN: &'static str = "(EnumVariantUnit LocalIdentifier CompilerIdentifier EvolutionaryIdentifier EnumVariantName (? Documentation) (? Tags) (? DerivedTrace))";

pub const SHAPE_PATTERN: &'static str = "(Shape CompilerIdentifier EvolutionaryIdentifier ShapeName (? DerivedTrace))";

/// The name of a tag.
pub open spec fn tag_name(t: EventTag) -> Seq<char> {
    match t {
        EventTag::ElementaryEnum => "ElementaryEnum"@,
        EventTag::Field => "Field"@,
        EventTag::FieldKey => "FieldKey"@,
        EventTag::FieldValue => "FieldValue"@,
        EventTag::String => "String"@,
        EventTag::GlobalIdentifier => "GlobalIdentifier"@,
        EventTag::LocalIdentifier => "LocalIdentifier"@,
        EventTag::CompilerIdentifier => "CompilerIdentifier"@,
        EventTag::EvolutionaryIdentifier => "EvolutionaryIdentifier"@,
        EventTag::EnumVariantName => "EnumVariantName"@,
        EventTag::EnumVariantUnit => "EnumVariantUnit"@,
        EventTag::Documentation => "Documentation"@,
        EventTag::Tags => "Tags"@,
        EventTag::U32 => "U32"@,
        EventTag::Uuid => "Uuid"@,
        EventTag::ShapeName => "ShapeName"@,
        EventTag::DerivedTrace => "DerivedTrace"@,
        EventTag::Shape => "Shape"@,
    }
}

/// Every tag, in declaration order.
pub open spec fn all_tags() -> Seq<EventTag> {
    seq![
        EventTag::ElementaryEnum, EventTag::Field, EventTag::FieldKey, EventTag::FieldValue, EventTag::String,
        EventTag::GlobalIdentifier, EventTag::LocalIdentifier, EventTag::CompilerIdentifier,
        EventTag::EvolutionaryIdentifier, EventTag::EnumVariantName, EventTag::EnumVariantUnit,
        EventTag::Documentation, EventTag::Tags, EventTag::U32, EventTag::Uuid, EventTag::ShapeName,
        EventTag::DerivedTrace, EventTag::Shape,
    ]
}

impl EventTag {
    /// Whether the tag is a leaf, whose payload sits in the generation context.
    pub fn is_terminal(&self) -> (r: bool)
        ensures
            r == spec_is_terminal(*self),
    {
        match self {
            EventTag::ElementaryEnum => false,
            EventTag::Field => false,
            EventTag::FieldKey => false,
            EventTag::FieldValue => false,
            EventTag::String => true,
            EventTag::EnumVariantName => true,
            EventTag::EnumVariantUnit => false,
            EventTag::Documentation => false,
            EventTag::Tags => false,
            EventTag::GlobalIdentifier => false,
            EventTag::LocalIdentifier => false,
            EventTag::U32 => true,
            EventTag::Uuid => false,
            EventTag::CompilerIdentifier => false,
            EventTag::EvolutionaryIdentifier => false,
            EventTag::ShapeName => false,
            EventTag::DerivedTrace => false,
            EventTag::Shape => false,
        }
    }

    /// The pattern of the subtrees rooted at a non-terminal tag; `None` for a
    /// terminal one.
    pub fn pattern(&self) -> (r: Option<String>)
        ensures
            r is Some <==> !spec_is_terminal(*self),
            r matches Some(s) ==> pattern_of(*self) == Some(s@),
            r is None ==> pattern_of(*self) is None,
    {
        let p: Option<&str> = match self {
            EventTag::ElementaryEnum => Some(ELEMENTARY_ENUM_PATTERN),
            EventTag::Field => Some("(Field FieldKey FieldValue)"),
            EventTag::FieldKey => Some("(FieldKey _)"),
            EventTag::FieldValue => Some("(FieldValue (+ _))"),
            EventTag::String => None,
            EventTag::EnumVariantName => None,
            EventTag::EnumVariantUnit => Some(ENUM_VARIANT_UNIT_PATTERN),
            EventTag::Documentation => Some("(Documentation (+ String))"),
            EventTag::Tags => Some("(Tags (+ String))"),
            EventTag::GlobalIdentifier => Some("(GlobalIdentifier Uuid)"),
            EventTag::LocalIdentifier => Some("(LocalIdentifier U32)"),
            EventTag::U32 => None,
            EventTag::Uuid => Some("(Uuid String)"),
            EventTag::CompilerIdentifier => Some("(CompilerIdentifier U32)"),
            EventTag::EvolutionaryIdentifier => Some("(EvolutionaryIdentifier (+ (| String Uuid U32)))"),
            EventTag::ShapeName => Some("(ShapeName String)"),
            EventTag::DerivedTrace => Some("(DerivedTrace (+ CompilerIdentifier))"),
            EventTag::Shape => Some(SHAPE_PATTERN),
        };
        match p {
            Some(s) => Some(String::from_str(s)),
            None => None,
        }
    }

    /// The tag's name.
    pub fn name(&self) -> (r: &'static str)
        ensures
            r@ == tag_name(*self),
    {
        match self {
            EventTag::ElementaryEnum => "ElementaryEnum",
            EventTag::Field => "Field",
            EventTag::FieldKey => "FieldKey",
            EventTag::FieldValue => "FieldValue",
            EventTag::String => "String",
            EventTag::GlobalIdentifier => "GlobalIdentifier",
            EventTag::LocalIdentifier => "LocalIdentifier",
            EventTag::CompilerIdentifier => "CompilerIdentifier",
            EventTag::EvolutionaryIdentifier => "EvolutionaryIdentifier",
            EventTag::EnumVariantName => "EnumVariantName",
            EventTag::EnumVariantUnit => "EnumVariantUnit",
            EventTag::Documentation => "Documentation",
            EventTag::Tags => "Tags",
            EventTag::U32 => "U32",
            EventTag::Uuid => "Uuid",
            EventTag::ShapeName => "ShapeName",
            EventTag::DerivedTrace => "DerivedTrace",
            EventTag::Shape => "Shape",
        }
    }

    /// Every tag, in declaration order.
    pub fn all() -> (r: Vec<EventTag>)
        ensures
            r@ == all_tags(),
    {
        let mut v: Vec<EventTag> = Vec::new();
        v.push(EventTag::ElementaryEnum);
        v.push(EventTag::Field);
        v.push(EventTag::FieldKey);
        v.push(EventTag::FieldValue);
        v.push(EventTag::String);
        v.push(EventTag::GlobalIdentifier);
        v.push(EventTag::LocalIdentifier);
        v.push(EventTag::CompilerIdentifier);
        v.push(EventTag::EvolutionaryIdentifier);
        v.push(EventTag::EnumVariantName);
        v.push(EventTag::EnumVariantUnit);
        v.push(EventTag::Documentation);
        v.push(EventTag::Tags);
        v.push(EventTag::U32);
        v.push(EventTag::Uuid);
        v.push(EventTag::ShapeName);
        v.push(EventTag::DerivedTrace);
        v.push(EventTag::Shape);
        assert(v@ == all_tags());
        v
    }
}

} // verus!
