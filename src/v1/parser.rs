use vstd::prelude::*;
use indexmap::IndexSet;
use crate::v1::index::text_set_items;
use crate::v1::cst::{
    cst_of, filter_not_extra, lemma_kinds_distinct, meaningful, nodes, parse_source, string, string_text, text_is, CstNode,
    Point,
};
use crate::v1::ids::{EnumId, EvolveId, IdentId, ResourceId, SourceId};
use crate::v1::procedures::{eval_cost, eval_outcome, evaluate, lemma_room_rest, rest_of, is_capacity_fault, lemma_eval_located, located, Evaluated};
use crate::v1::types::{
    grows_within, lemma_grows_within_refl, lemma_grows_within_trans, lemma_grows_within_weaken, room, Definition,
    Enumeration, InternedIdentId, Package,
};
use crate::v1::validators::VariantNameValidError;

verus! {

#[derive(Debug, Copy, Clone, PartialEq, Eq, Structural)]
pub enum AttributeKind {
    Doc,
    Meta,
    Id,
}

#[derive(Debug, Copy, Clone, PartialEq, Eq, Structural)]
pub enum IdKind {
    Local,
    Global,
}

#[allow(inconsistent_fields)]
#[derive(Debug)]
pub enum ParseSpecError {
    UndefinedSymbol,
    InvalidEnumVariantName { cause: VariantNameValidError },
    InvalidId { expected: IdKind, got: IdKind },
    /// conflict between two or more id statements
    ConflictIdDefinition,
    /// two variants of the same enum share a name
    ConflictVariantNameDefinition,
    InvalidNumbersOfIds { expected: usize, got: usize },
    InvalidNumberOfArguments { expected: usize, got: usize },
    CantBeZero,
    TypeError { expected: String, got: String },
    ExpectingKeyValue,
    UnattachedAttribute { kind: AttributeKind },
    UnsupportedProperty { expected: IndexSet<String>, got: String },
    FunctionNotFound { name: String },
    ExpectingNode,
    ExpectingResource,
    MissingValue,
    ExpectedOperandGotOperator,
    IDLMissingVersion,
    UnsupportedIDLVersion { got: String, expecting: Vec<String> },
    Custom(String),
}

/// What an error says, with texts as character sequences.
#[allow(inconsistent_fields)]
pub enum SpecError {
    UndefinedSymbol,
    InvalidEnumVariantName { cause: VariantNameValidError },
    InvalidId { expected: IdKind, got: IdKind },
    ConflictIdDefinition,
    ConflictVariantNameDefinition,
    InvalidNumbersOfIds { expected: nat, got: nat },
    InvalidNumberOfArguments { expected: nat, got: nat },
    CantBeZero,
    TypeError { expected: Seq<char>, got: Seq<char> },
    ExpectingKeyValue,
    UnattachedAttribute { kind: AttributeKind },
    UnsupportedProperty { expected: Seq<Seq<char>>, got: Seq<char> },
    FunctionNotFound { name: Seq<char> },
    ExpectingNode,
    ExpectingResource,
    MissingValue,
    ExpectedOperandGotOperator,
    IDLMissingVersion,
    UnsupportedIDLVersion { got: Seq<char>, expecting: Seq<Seq<char>> },
    Custom(Seq<char>),
}

pub open spec fn texts(v: Seq<String>) -> Seq<Seq<char>> {
    Seq::new(v.len(), |i: int| v[i]@)
}

impl View for ParseSpecError {
    type V = SpecError;

    open spec fn view(&self) -> SpecError {
        match self {
            ParseSpecError::UndefinedSymbol => SpecError::UndefinedSymbol,
            ParseSpecError::InvalidEnumVariantName { cause } => SpecError::InvalidEnumVariantName { cause: *cause },
            ParseSpecError::InvalidId { expected, got } => SpecError::InvalidId { expected: *expected, got: *got },
            ParseSpecError::ConflictIdDefinition => SpecError::ConflictIdDefinition,
            ParseSpecError::ConflictVariantNameDefinition => SpecError::ConflictVariantNameDefinition,
            ParseSpecError::InvalidNumbersOfIds { expected, got } => SpecError::InvalidNumbersOfIds {
                expected: *expected as nat,
                got: *got as nat,
            },
            ParseSpecError::InvalidNumberOfArguments { expected, got } => SpecError::InvalidNumberOfArguments {
                expected: *expected as nat,
                got: *got as nat,
            },
            ParseSpecError::CantBeZero => SpecError::CantBeZero,
            ParseSpecError::TypeError { expected, got } => SpecError::TypeError { expected: expected@, got: got@ },
            ParseSpecError::ExpectingKeyValue => SpecError::ExpectingKeyValue,
            ParseSpecError::UnattachedAttribute { kind } => SpecError::UnattachedAttribute { kind: *kind },
            ParseSpecError::UnsupportedProperty { expected, got } => SpecError::UnsupportedProperty {
                expected: text_set_items(*expected),
                got: got@,
            },
            ParseSpecError::FunctionNotFound { name } => SpecError::FunctionNotFound { name: name@ },
            ParseSpecError::ExpectingNode => SpecError::ExpectingNode,
            ParseSpecError::ExpectingResource => SpecError::ExpectingResource,
            ParseSpecError::MissingValue => SpecError::MissingValue,
            ParseSpecError::ExpectedOperandGotOperator => SpecError::ExpectedOperandGotOperator,
            ParseSpecError::IDLMissingVersion => SpecError::IDLMissingVersion,
            ParseSpecError::UnsupportedIDLVersion { got, expecting } => SpecError::UnsupportedIDLVersion {
                got: got@,
                expecting: texts(expecting@),
            },
            ParseSpecError::Custom(s) => SpecError::Custom(s@),
        }
    }
}

#[derive(Debug)]
pub struct SyntaxError {
    pub locations: Vec<Point>,
    pub value: ParseSpecError,
    pub source_id: SourceId,
}

/// A failure as a contract states it: where, and what.
pub struct Fault {
    pub locations: Seq<Point>,
    pub error: SpecError,
}

impl View for SyntaxError {
    type V = Fault;

    open spec fn view(&self) -> Fault {
        Fault { locations: self.locations@, error: self.value@ }
    }
}

/// A fault located at one node.
pub open spec fn fault_at(n: CstNode, e: SpecError) -> Fault {
    Fault { locations: seq![n.start], error: e }
}

/// A fault located at two nodes.
pub open spec fn conflict_at(a: CstNode, b: Point, e: SpecError) -> Fault {
    Fault { locations: seq![a.start, b], error: e }
}

/// A fault raised when the package's columns or a node's bytes outgrow `u32`.
pub open spec fn capacity_fault(n: CstNode) -> Fault {
    fault_at(n, SpecError::Custom("file too big"@))
}

/// The state of one parse of one source.
#[derive(Debug)]
pub struct ParseSpecContext<'s> {
    pub content: &'s str,
    pub version_checked: bool,
    pub source_id: SourceId,
    /// the evolution id and the name of the definition being evaluated
    pub def_id: EvolveId,
    pub def_name: String,
}

impl<'s> ParseSpecContext<'s> {
    /// An error located at `node`.
    pub fn error(&self, node: &CstNode, error: ParseSpecError) -> (r: SyntaxError)
        ensures
            r@ == fault_at(*node, error@),
            r.source_id == self.source_id,
    {
        let mut locations: Vec<Point> = Vec::new();
        locations.push(node.start);
        assert(locations@ == seq![node.start]);
        SyntaxError { locations, value: error, source_id: self.source_id }
    }

    /// An error located at two nodes that conflict.
    pub fn conflict(&self, node: &CstNode, other: Point, error: ParseSpecError) -> (r: SyntaxError)
        ensures
            r@ == conflict_at(*node, other, error@),
            r.source_id == self.source_id,
    {
        let mut locations: Vec<Point> = Vec::new();
        locations.push(node.start);
        locations.push(other);
        assert(locations@ == seq![node.start, other]);
        SyntaxError { locations, value: error, source_id: self.source_id }
    }

    /// The text of a node.
    pub fn text<'a>(&self, node: &'a CstNode) -> (r: &'a str)
        ensures
            r@ == node.text@,
    {
        node.text.as_str()
    }

    /// The text of a string literal node without its quotes.
    pub fn string<'a>(&self, node: &'a CstNode) -> (r: &'a str)
        ensures
            r@ == string_text(*node),
    {
        string(node)
    }

    /// The text of a keyword node without its leading colon.
    pub fn key<'a>(&self, node: &'a CstNode) -> (r: &'a str)
        ensures
            r@ == crate::v1::cst::key_text(*node),
    {
        crate::v1::cst::key(node)
    }

    /// The error for a package or source outgrowing `u32`.
    pub fn too_big(&self, node: &CstNode) -> (r: SyntaxError)
        ensures
            r@ == capacity_fault(*node),
            r.source_id == self.source_id,
    {
        self.error(node, ParseSpecError::Custom(String::from_str("file too big")))
    }
}


/// The judgement of `(version V)`: one string argument, which must be `"1"`.
pub open spec fn version_outcome(caller: CstNode, args: Seq<CstNode>) -> Result<(), Fault> {
    if args.len() != 1 {
        Err(fault_at(caller, SpecError::InvalidNumberOfArguments { expected: 1, got: args.len() }))
    } else if args[0].kind@ != "str_lit"@ {
        Err(fault_at(caller, SpecError::TypeError { expected: "str_lit"@, got: args[0].kind@ }))
    } else if string_text(args[0]) != "1"@ {
        Err(fault_at(caller, SpecError::UnsupportedIDLVersion { got: string_text(args[0]), expecting: seq!["1"@] }))
    } else {
        Ok(())
    }
}

/// The judgement of `(def NAME ID RESOURCE)`: a symbol, a form that evaluates
/// to an evolution id, and a form that evaluates to a resource other than one.
pub open spec fn def_outcome(caller: CstNode, args: Seq<CstNode>) -> Result<(), Fault> {
    if args.len() != 3 {
        Err(fault_at(caller, SpecError::InvalidNumberOfArguments { expected: 3, got: args.len() }))
    } else if args[0].kind@ != "sym_lit"@ {
        Err(fault_at(args[0], SpecError::TypeError { expected: "sym_lit"@, got: args[0].kind@ }))
    } else if args[1].kind@ != "list_lit"@ {
        Err(fault_at(args[1], SpecError::TypeError { expected: "list_lit"@, got: args[1].kind@ }))
    } else {
        match eval_outcome(args[1]) {
            Err(f) => Err(f),
            Ok(Evaluated::Nothing) => Err(fault_at(args[1], SpecError::ExpectingResource)),
            Ok(Evaluated::Enum) => Err(fault_at(args[0], SpecError::TypeError { expected: "id"@, got: "enum"@ })),
            Ok(Evaluated::Id(_)) => if args[2].kind@ != "list_lit"@ {
                Err(fault_at(args[2], SpecError::TypeError { expected: "list_lit"@, got: args[2].kind@ }))
            } else {
                match eval_outcome(args[2]) {
                    Err(f) => Err(f),
                    Ok(Evaluated::Nothing) => Err(fault_at(args[2], SpecError::ExpectingResource)),
                    Ok(Evaluated::Id(_)) => Err(fault_at(args[0], SpecError::TypeError { expected: "resource"@, got: "id"@ })),
                    Ok(Evaluated::Enum) => Ok(()),
                }
            },
        }
    }
}

/// The judgement of a top-level list, given whether the version was checked;
/// the new value of that flag.
pub open spec fn top_list_outcome(node: CstNode, checked: bool) -> Result<bool, Fault> {
    let e = meaningful(node.children@);
    if e.len() < 2 {
        Ok(checked)
    } else if e[0].kind@ != "sym_lit"@ {
        Err(fault_at(e[0], SpecError::TypeError { expected: "sym_lit"@, got: e[0].kind@ }))
    } else if e[0].text@ == "version"@ {
        match version_outcome(e[0], e.drop_first()) {
            Ok(_) => Ok(true),
            Err(f) => Err(f),
        }
    } else if e[0].text@ == "def"@ {
        if !checked {
            Err(fault_at(e[0], SpecError::IDLMissingVersion))
        } else {
            match def_outcome(e[0], e.drop_first()) {
                Ok(_) => Ok(checked),
                Err(f) => Err(f),
            }
        }
    } else {
        Err(fault_at(e[0], SpecError::UndefinedSymbol))
    }
}

/// The judgement of a source's top-level nodes, in order: lists are read,
/// everything else is skipped.
pub open spec fn source_outcome(s: Seq<CstNode>, checked: bool) -> Result<bool, Fault>
    decreases s.len(),
{
    if s.len() == 0 {
        Ok(checked)
    } else {
        match source_outcome(s.drop_last(), checked) {
            Ok(c) => if s.last().kind@ == "list_lit"@ {
                top_list_outcome(s.last(), c)
            } else {
                Ok(c)
            },
            Err(f) => Err(f),
        }
    }
}

proof fn lemma_source_fault_sticks(s: Seq<CstNode>, checked: bool, i: int, f: Fault)
    requires
        0 <= i <= s.len(),
        source_outcome(s.subrange(0, i), checked) == Err::<bool, Fault>(f),
    ensures
        source_outcome(s, checked) == Err::<bool, Fault>(f),
    decreases s.len() - i,
{
    if i < s.len() {
        assert(s.subrange(0, i + 1).drop_last() == s.subrange(0, i));
        lemma_source_fault_sticks(s, checked, i + 1, f);
    } else {
        assert(s.subrange(0, i) == s);
    }
}

/// Reads `(version V)`; only version `"1"` is accepted.
pub fn visit_top_version(caller: &CstNode, arg: &[&CstNode], ctx: &mut ParseSpecContext) -> (r: Result<(), SyntaxError>)
    ensures
        final(ctx).source_id == old(ctx).source_id,
        final(ctx).def_id == old(ctx).def_id,
        match version_outcome(*caller, nodes(arg@)) {
            Ok(_) => r is Ok && final(ctx).version_checked,
            Err(f) => r matches Err(e) && e@ == f && final(ctx).version_checked == old(ctx).version_checked,
        },
{
    if arg.len() != 1 {
        return Err(ctx.error(caller, ParseSpecError::InvalidNumberOfArguments { expected: 1, got: arg.len() }));
    }
    let version_number: &CstNode = arg[0];
    if !text_is(&version_number.kind, "str_lit") {
        return Err(ctx.error(
            caller,
            ParseSpecError::TypeError { expected: String::from_str("str_lit"), got: version_number.kind.clone() },
        ));
    }
    let version_value = string(version_number);
    if crate::v1::validators::str_equal(version_value, "1") {
        ctx.version_checked = true;
        Ok(())
    } else {
        let mut expecting: Vec<String> = Vec::new();
        expecting.push(String::from_str("1"));
        assert(texts(expecting@) == seq!["1"@]);
        Err(ctx.error(
            caller,
            ParseSpecError::UnsupportedIDLVersion { got: String::from_str(version_value), expecting },
        ))
    }
}

/// What a `(def NAME ID RESOURCE)` form may add to any one column: what its
/// two forms may add, its identifier and the definition.
pub open spec fn def_cost(args: Seq<CstNode>) -> nat {
    if args.len() == 3 {
        eval_cost(args[1]) + eval_cost(args[2]) + 2
    } else {
        0
    }
}

/// A top-level `(def ...)` list read after the version was checked.
pub open spec fn is_checked_def(node: CstNode, checked: bool) -> bool {
    let e = meaningful(node.children@);
    e.len() >= 2 && e[0].kind@ == "sym_lit"@ && e[0].text@ == "def"@ && checked
}

/// What a top-level list may add to any one column: only a `def` read after
/// the version adds anything.
pub open spec fn top_list_cost(node: CstNode, checked: bool) -> nat {
    let e = meaningful(node.children@);
    if is_checked_def(node, checked) {
        def_cost(e.drop_first())
    } else {
        0
    }
}

/// What a source's top-level nodes may add to any one column.
pub open spec fn source_cost(s: Seq<CstNode>, checked: bool) -> nat
    decreases s.len(),
{
    if s.len() == 0 {
        0
    } else {
        source_cost(s.drop_last(), checked) + match source_outcome(s.drop_last(), checked) {
            Ok(c) => if s.last().kind@ == "list_lit"@ {
                top_list_cost(s.last(), c)
            } else {
                0
            },
            Err(_) => 0,
        }
    }
}

proof fn lemma_source_cost_prefix(s: Seq<CstNode>, checked: bool, i: int)
    requires
        0 <= i <= s.len(),
    ensures
        source_cost(s.subrange(0, i), checked) <= source_cost(s, checked),
    decreases s.len() - i,
{
    if i < s.len() {
        assert(s.subrange(0, i + 1).drop_last() == s.subrange(0, i));
        lemma_source_cost_prefix(s, checked, i + 1);
    } else {
        assert(s.subrange(0, i) == s);
    }
}

/// The definition that an accepted `(def NAME ID RESOURCE)` records: an
/// identifier with the name's text, the enumeration just added, bound to the
/// evolution identity that `ID` denotes, and the span of the `def` symbol.
pub open spec fn records_definition(p1: Package, p2: Package, caller: CstNode, args: Seq<CstNode>, source_id: SourceId) -> bool {
    &&& p2.definitions@ == p1.definitions@.push(Definition {
        ident: IdentId(p2.idents@.len() as u32),
        interned_ident: InternedIdentId(p2.idents@.len() as u32),
        define: ResourceId::EnumId(EnumId(p2.enumerations@.len() as u32)),
    })
    &&& p2.definitions_spans@ == p1.definitions_spans@.push(crate::v1::types::span_of(caller, source_id))
    &&& p2.idents@.len() == p1.idents@.len() + 1
    &&& p2.idents@.last().value@ == args[0].text@
    &&& p2.enumerations@.len() == p1.enumerations@.len() + 1
    &&& p2.enumerations@.last() matches Enumeration::Elementary { id, .. } && 1 <= id.0 <= p2.evolution_ids@.len()
        && eval_outcome(args[1]) == Ok::<Evaluated, Fault>(Evaluated::Id(p2.evolution_ids@[id.0 - 1]))
}

/// Reads `(def NAME (id ...) (enum ...))` and records the definition.
pub fn visit_def(caller: &CstNode, arg: &[&CstNode], ctx: &mut ParseSpecContext, package: &mut Package) -> (r: Result<
    (),
    SyntaxError,
>)
    requires
        old(package).wf(),
    ensures
        final(package).wf(),
        final(ctx).source_id == old(ctx).source_id,
        final(ctx).version_checked == old(ctx).version_checked,
        r is Ok ==> def_outcome(*caller, nodes(arg@)) is Ok,
        r is Ok ==> records_definition(*old(package), *final(package), *caller, nodes(arg@), old(ctx).source_id),
        grows_within(*final(package), *old(package), def_cost(nodes(arg@))),
        room(*old(package), def_cost(nodes(arg@))) && def_outcome(*caller, nodes(arg@)) is Ok ==> r is Ok,
        r matches Err(e) ==> def_outcome(*caller, nodes(arg@)) == Err::<(), Fault>(e@) || (is_capacity_fault(e@)
            && !room(*old(package), def_cost(nodes(arg@)))),
        def_outcome(*caller, nodes(arg@)) is Err ==> r is Err,
{
    proof {
        lemma_kinds_distinct();
        lemma_grows_within_refl(*package);
    }
    if arg.len() != 3 {
        return Err(ctx.error(caller, ParseSpecError::InvalidNumberOfArguments { expected: 3, got: arg.len() }));
    }
    let ghost args = nodes(arg@);
    let ghost total = def_cost(args);
    let name: &CstNode = arg[0];
    assert(*name == args[0]);
    if !text_is(&name.kind, "sym_lit") {
        return Err(ctx.error(
            name,
            ParseSpecError::TypeError { expected: String::from_str("sym_lit"), got: name.kind.clone() },
        ));
    }
    let first: &CstNode = arg[1];
    assert(*first == args[1]);
    if !text_is(&first.kind, "list_lit") {
        return Err(ctx.error(
            first,
            ParseSpecError::TypeError { expected: String::from_str("list_lit"), got: first.kind.clone() },
        ));
    }
    let ghost p0 = *package;
    let global_id = match evaluate(first, ctx, package) {
        Err(e) => {
            proof {
                if room(p0, total) {
                    lemma_room_rest(p0, p0, 0, eval_cost(args[1]), total);
                }
                lemma_grows_within_weaken(p0, *package, eval_cost(args[1]), total);
            }
            return Err(e);
        },
        Ok(None) => {
            proof { lemma_grows_within_weaken(p0, *package, eval_cost(args[1]), total); }
            return Err(ctx.error(first, ParseSpecError::ExpectingResource));
        },
        Ok(Some(ResourceId::EvolveId(id))) => id,
        Ok(Some(other)) => {
            proof {
                reveal_strlit("enum");
                lemma_grows_within_weaken(p0, *package, eval_cost(args[1]), total);
            }
            return Err(ctx.error(
                name,
                ParseSpecError::TypeError { expected: String::from_str("id"), got: String::from_str(other.tty()) },
            ));
        },
    };
    let ghost p1 = *package;
    let ghost track = p1.evolution_ids@[global_id.0 - 1];
    let second: &CstNode = arg[2];
    assert(*second == args[2]);
    if !text_is(&second.kind, "list_lit") {
        proof { lemma_grows_within_weaken(p0, *package, eval_cost(args[1]), total); }
        return Err(ctx.error(
            second,
            ParseSpecError::TypeError { expected: String::from_str("list_lit"), got: second.kind.clone() },
        ));
    }
    ctx.def_id = global_id;
    ctx.def_name = name.text.clone();
    let resource = match evaluate(second, ctx, package) {
        Err(e) => {
            proof {
                if room(p0, total) {
                    lemma_room_rest(p0, p1, eval_cost(args[1]), eval_cost(args[2]), total);
                }
                lemma_grows_within_trans(p0, p1, *package, eval_cost(args[1]), eval_cost(args[2]));
                lemma_grows_within_weaken(p0, *package, eval_cost(args[1]) + eval_cost(args[2]), total);
            }
            return Err(e);
        },
        Ok(None) => {
            proof {
                lemma_grows_within_trans(p0, p1, *package, eval_cost(args[1]), eval_cost(args[2]));
                lemma_grows_within_weaken(p0, *package, eval_cost(args[1]) + eval_cost(args[2]), total);
            }
            return Err(ctx.error(second, ParseSpecError::ExpectingResource));
        },
        Ok(Some(ResourceId::EvolveId(_))) => {
            proof {
                lemma_grows_within_trans(p0, p1, *package, eval_cost(args[1]), eval_cost(args[2]));
                lemma_grows_within_weaken(p0, *package, eval_cost(args[1]) + eval_cost(args[2]), total);
            }
            return Err(ctx.error(
                name,
                ParseSpecError::TypeError { expected: String::from_str("resource"), got: String::from_str("id") },
            ));
        },
        Ok(Some(res)) => res,
    };
    let ghost p2 = *package;
    let ghost used = eval_cost(args[1]) + eval_cost(args[2]);
    proof {
        lemma_grows_within_trans(p0, p1, *package, eval_cost(args[1]), eval_cost(args[2]));
        crate::v1::procedures::lemma_prefix_index(p1.evolution_ids@, p2.evolution_ids@, global_id.0 - 1);
    }
    let ident = match package.add_ident(name, ctx.source_id, name.text.clone()) {
        Some(i) => i,
        None => {
            proof {
                if room(p0, total) {
                    lemma_room_rest(p0, p2, used, 1, total);
                }
                lemma_grows_within_weaken(p0, *package, used, total);
            }
            return Err(ctx.too_big(name));
        },
    };
    let ghost p3 = *package;
    proof { lemma_grows_within_trans(p0, p2, *package, used, 1); }
    let d = Definition { ident, interned_ident: InternedIdentId(ident.0), define: resource };
    if !package.add_definition(caller, ctx.source_id, d) {
        proof {
            if room(p0, total) {
                lemma_room_rest(p0, p3, used + 1, 1, total);
            }
            lemma_grows_within_weaken(p0, *package, used + 1, total);
        }
        return Err(ctx.too_big(caller));
    }
    proof {
        lemma_grows_within_trans(p0, p3, *package, used + 1, 1);
        assert(package.idents@.len() == p0.idents@.len() + 1);
        assert(package.idents@.last().value@ == args[0].text@);
        assert(package.enumerations@.len() == p0.enumerations@.len() + 1);
        assert(resource == ResourceId::EnumId(EnumId(package.enumerations@.len() as u32)));
        assert(package.definitions_spans@ == p0.definitions_spans@.push(crate::v1::types::span_of(*caller, ctx.source_id)));
        assert(package.definitions@ == p0.definitions@.push(d));
    }
    Ok(())
}

/// Reads one top-level list, dispatched on its head symbol: `version` or
/// `def`; a `def` needs the version checked first.
pub fn visit_top_list(node: &CstNode, ctx: &mut ParseSpecContext, package: &mut Package) -> (r: Result<(), SyntaxError>)
    requires
        old(package).wf(),
    ensures
        final(package).wf(),
        final(ctx).source_id == old(ctx).source_id,
        r is Ok ==> top_list_outcome(*node, old(ctx).version_checked) == Ok::<bool, Fault>(final(ctx).version_checked),
        grows_within(*final(package), *old(package), top_list_cost(*node, old(ctx).version_checked)),
        room(*old(package), top_list_cost(*node, old(ctx).version_checked))
            && top_list_outcome(*node, old(ctx).version_checked) is Ok ==> r is Ok,
        r matches Err(e) ==> top_list_outcome(*node, old(ctx).version_checked) == Err::<bool, Fault>(e@)
            || (is_capacity_fault(e@) && !room(*old(package), top_list_cost(*node, old(ctx).version_checked))),
        top_list_outcome(*node, old(ctx).version_checked) is Err ==> r is Err,
        !is_checked_def(*node, old(ctx).version_checked) ==> *final(package) == *old(package),
        r is Ok && is_checked_def(*node, old(ctx).version_checked) ==> records_definition(
            *old(package),
            *final(package),
            meaningful(node.children@)[0],
            meaningful(node.children@).drop_first(),
            old(ctx).source_id,
        ),
{
    proof {
        lemma_kinds_distinct();
        lemma_grows_within_refl(*package);
    }
    let elements = filter_not_extra(node);
    if elements.len() < 2 {
        return Ok(());
    }
    let caller: &CstNode = elements[0];
    assert(*caller == nodes(elements@)[0]);
    if !text_is(&caller.kind, "sym_lit") {
        return Err(ctx.error(
            caller,
            ParseSpecError::TypeError { expected: String::from_str("sym_lit"), got: caller.kind.clone() },
        ));
    }
    let args = rest_of(&elements);
    if text_is(&caller.text, "version") {
        proof {
            reveal_strlit("version");
            reveal_strlit("def");
            assert("version"@.len() != "def"@.len());
            assert(!is_checked_def(*node, ctx.version_checked));
        }
        visit_top_version(caller, args.as_slice(), ctx)
    } else if text_is(&caller.text, "def") {
        if ctx.version_checked {
            assert(nodes(args@) == meaningful(node.children@).drop_first());
            assert(*caller == meaningful(node.children@)[0]);
            let r = visit_def(caller, args.as_slice(), ctx, package);
            assert(r is Ok ==> records_definition(*old(package), *package, meaningful(node.children@)[0], meaningful(node.children@).drop_first(), old(ctx).source_id));
            r
        } else {
            Err(ctx.error(caller, ParseSpecError::IDLMissingVersion))
        }
    } else {
        Err(ctx.error(caller, ParseSpecError::UndefinedSymbol))
    }
}

/// Reads every top-level list of a source, in order; the first error wins.
pub fn visit_source(node: &CstNode, ctx: &mut ParseSpecContext, package: &mut Package) -> (r: Result<(), SyntaxError>)
    requires
        old(package).wf(),
    ensures
        final(package).wf(),
        final(ctx).source_id == old(ctx).source_id,
        r is Ok ==> source_outcome(node.children@, old(ctx).version_checked) == Ok::<bool, Fault>(final(ctx).version_checked),
        grows_within(*final(package), *old(package), source_cost(node.children@, old(ctx).version_checked)),
        room(*old(package), source_cost(node.children@, old(ctx).version_checked))
            && source_outcome(node.children@, old(ctx).version_checked) is Ok ==> r is Ok,
        r matches Err(e) ==> source_outcome(node.children@, old(ctx).version_checked) == Err::<bool, Fault>(e@)
            || (is_capacity_fault(e@) && !room(*old(package), source_cost(node.children@, old(ctx).version_checked))),
        source_outcome(node.children@, old(ctx).version_checked) is Err ==> r is Err,
{
    let ghost checked0 = ctx.version_checked;
    let ghost total = source_cost(node.children@, checked0);
    proof { lemma_grows_within_refl(*package); }
    let mut i: usize = 0;
    assert(node.children@.subrange(0, 0).len() == 0);
    while i < node.children.len()
        invariant
            i <= node.children@.len(),
            package.wf(),
            checked0 == old(ctx).version_checked,
            total == source_cost(node.children@, checked0),
            ctx.source_id == old(ctx).source_id,
            source_outcome(node.children@.subrange(0, i as int), checked0) == Ok::<bool, Fault>(ctx.version_checked),
            grows_within(*package, *old(package), source_cost(node.children@.subrange(0, i as int), checked0)),
        decreases node.children@.len() - i,
    {
        let child = &node.children[i];
        let ghost used0 = source_cost(node.children@.subrange(0, i as int), checked0);
        let ghost pc = *package;
        proof {
            assert(node.children@.subrange(0, i + 1).drop_last() == node.children@.subrange(0, i as int));
            assert(node.children@.subrange(0, i + 1).last() == *child);
            lemma_source_cost_prefix(node.children@, checked0, i + 1);
        }
        if text_is(&child.kind, "list_lit") {
            match visit_top_list(child, ctx, package) {
                Ok(()) => {
                    proof {
                        lemma_grows_within_trans(*old(package), pc, *package, used0, top_list_cost(*child, source_outcome(node.children@.subrange(0, i as int), checked0)->Ok_0));
                    }
                },
                Err(e) => {
                    proof {
                        let c = source_outcome(node.children@.subrange(0, i as int), checked0)->Ok_0;
                        if top_list_outcome(*child, c) == Err::<bool, Fault>(e@) {
                            lemma_source_fault_sticks(node.children@, checked0, i + 1, e@);
                        } else if room(*old(package), total) {
                            lemma_room_rest(*old(package), pc, used0, top_list_cost(*child, c), total);
                        }
                        lemma_grows_within_trans(*old(package), pc, *package, used0, top_list_cost(*child, c));
                        lemma_grows_within_weaken(*old(package), *package, used0 + top_list_cost(*child, c), total);
                    }
                    return Err(e);
                },
            }
        }
        i = i + 1;
    }
    assert(node.children@.subrange(0, node.children@.len() as int) == node.children@);
    Ok(())
}

proof fn lemma_def_located(caller: CstNode, args: Seq<CstNode>)
    ensures
        def_outcome(caller, args) matches Err(f) ==> located(f),
{
    if args.len() == 3 {
        lemma_eval_located(args[1]);
        lemma_eval_located(args[2]);
    }
}

proof fn lemma_top_list_located(node: CstNode, checked: bool)
    ensures
        top_list_outcome(node, checked) matches Err(f) ==> located(f),
{
    let e = meaningful(node.children@);
    if e.len() >= 2 {
        lemma_def_located(e[0], e.drop_first());
    }
}

/// A rejected source is rejected with a fault that points at one node, or at
/// the two nodes of a conflict.
pub proof fn lemma_faults_located(s: Seq<CstNode>, checked: bool)
    ensures
        source_outcome(s, checked) matches Err(f) ==> 1 <= f.locations.len() <= 2,
    decreases s.len(),
{
    if s.len() > 0 {
        lemma_faults_located(s.drop_last(), checked);
        if let Ok(c) = source_outcome(s.drop_last(), checked) {
            lemma_top_list_located(s.last(), c);
        }
    }
}

/// The outer identity of an accepted definition is an evolution identity,
/// local or UUID, and never zero; its resource is not one.
pub proof fn lemma_def_identity_scope(caller: CstNode, args: Seq<CstNode>)
    requires
        def_outcome(caller, args) is Ok,
    ensures
        eval_outcome(args[1]) matches Ok(Evaluated::Id(t)) && crate::v1::types::track_nonzero(t),
        eval_outcome(args[2]) == Ok::<Evaluated, Fault>(Evaluated::Enum),
{
}

/// The fault raised where the parser gives no tree.
pub open spec fn unparsable_fault() -> Fault {
    Fault { locations: seq![Point { row: 0, column: 0 }], error: SpecError::Custom("cannot parse the source"@) }
}

impl<'s> ParseSpecContext<'s> {
    /// Parses `content` and evaluates it into `package`. Where the package
    /// has room for what the source adds, the result is exactly the
    /// judgement of the source's top-level forms.
    pub fn new(source_id: SourceId, content: &'s str, package: &mut Package) -> (r: Result<ParseSpecContext<'s>, SyntaxError>)
        requires
            old(package).wf(),
        ensures
            final(package).wf(),
            r matches Ok(c) ==> c.source_id == source_id,
            r matches Err(e) ==> e.source_id == source_id && 1 <= e.locations@.len() <= 2,
            cst_of(content@) is None ==> (r matches Err(e) && e@ == unparsable_fault()) && *final(package) == *old(package),
            cst_of(content@) matches Some(t) ==> {
                &&& grows_within(*final(package), *old(package), source_cost(t.children@, false))
                &&& r is Ok ==> source_outcome(t.children@, false) is Ok
                &&& source_outcome(t.children@, false) is Err ==> r is Err
                &&& room(*old(package), source_cost(t.children@, false)) ==> (r is Ok <==> source_outcome(
                    t.children@,
                    false,
                ) is Ok)
                &&& room(*old(package), source_cost(t.children@, false)) ==> (r matches Err(e) ==> source_outcome(
                    t.children@,
                    false,
                ) == Err::<bool, Fault>(e@))
            },
    {
        let tree = match parse_source(content) {
            Some(t) => t,
            None => {
                let mut locations: Vec<Point> = Vec::new();
                locations.push(Point { row: 0, column: 0 });
                assert(locations@ == seq![Point { row: 0, column: 0 }]);
                return Err(SyntaxError {
                    locations,
                    value: ParseSpecError::Custom(String::from_str("cannot parse the source")),
                    source_id,
                });
            },
        };
        let mut ctx = ParseSpecContext {
            content,
            version_checked: false,
            source_id,
            def_id: EvolveId(0),
            def_name: String::new(),
        };
        match visit_source(&tree, &mut ctx, package) {
            Ok(()) => Ok(ctx),
            Err(e) => {
                proof {
                    lemma_faults_located(tree.children@, false);
                }
                let mut e = e;
                e.source_id = source_id;
                Err(e)
            },
        }
    }
}

} // verus!
