use indexmap::IndexSet;
use primal_rpc::events::tags::EventTag;
use primal_rpc::pattern::PatternTag;
use primal_rpc::events::{DfsPostorderEvent, EventGenerationContext};
use primal_rpc::v1::ids::{CompilerId, DocId, EnumId, EnumVariantId, EvolveId, KeyId, ShapeId};
use primal_rpc::v1::types::{
    BetweenVersionsIdSegment, EnumVariant, EnumVariantKind, EnumVariantName, EnumVariantNameAstId, Enumeration,
    EvolveTrack, Key, Package, Shape,
};

fn variant(local: u32, compiler: u32, key: u32) -> EnumVariant {
    EnumVariant {
        local_id: EvolveId(local),
        compiler_id: Some(CompilerId(compiler)),
        cross_schema_id: vec![BetweenVersionsIdSegment::U32(compiler)],
        derived_trace: None,
        name: EnumVariantName::Ast(EnumVariantNameAstId(KeyId(key))),
        tags: IndexSet::new(),
        docs: vec![],
        kind: EnumVariantKind::Unit,
    }
}

/// A ready package: one enumeration with a UUID identity and two variants.
fn ready_package(with_docs: bool) -> Package {
    let mut p = Package::new();
    p.evolution_ids.push(EvolveTrack::Uuid(0x60726927_5a79_485a_bf43_9b561149883a));
    p.evolution_ids.push(EvolveTrack::Local(1));
    p.evolution_ids.push(EvolveTrack::Local(2));
    p.keys.push(Key { segments: vec!["Accept".to_string()] });
    p.keys.push(Key { segments: vec!["Reject".to_string()] });
    p.enum_variant.push(variant(2, 11, 1));
    p.enum_variant.push(variant(3, 12, 2));
    p.shapes.push(Shape {
        name: Some("IdempotentHandling".to_string()),
        compiler_id: Some(CompilerId(10)),
        cross_schema_id: vec![BetweenVersionsIdSegment::Uuid(0x60726927_5a79_485a_bf43_9b561149883a)],
        derived_trace: vec![],
        is_ready: true,
    });
    let mut docs = vec![];
    if with_docs {
        p.docs.push(" the handling of repeated keys".to_string());
        docs.push(DocId(1));
    }
    p.enumerations.push(Enumeration::Elementary {
        id: EvolveId(1),
        variants: IndexSet::from([EnumVariantId(1), EnumVariantId(2)]),
        default: None,
        docs,
        tags: vec![],
    });
    p.enumeration_shape.push(ShapeId(1));
    p
}

/// Replays a stream: every branch closes as many finished subtrees as it
/// claims; returns the number of trees left, or `None`.
fn trees_in(events: &[DfsPostorderEvent<EventTag>]) -> Option<usize> {
    let mut depth: usize = 0;
    for e in events {
        match e {
            DfsPostorderEvent::Leaf { .. } => depth += 1,
            DfsPostorderEvent::Branch { child_count, .. } => {
                if *child_count > depth {
                    return None;
                }
                depth = depth - child_count + 1;
            }
        }
    }
    Some(depth)
}

fn leaves(events: &[DfsPostorderEvent<EventTag>], tags: &[EventTag]) -> usize {
    events
        .iter()
        .filter(|e| matches!(e, DfsPostorderEvent::Leaf { tag } if tags.contains(tag)))
        .count()
}

#[test]
fn enum_events_form_one_tree() {
    let package = ready_package(false);
    let mut ctx = EventGenerationContext::new();
    let mut out = Vec::new();
    EnumId(1).to_events(&mut ctx, &package, &mut out);
    assert_eq!(trees_in(&out), Some(1));
    assert_eq!(out.last(), Some(&DfsPostorderEvent::Branch { tag: EventTag::ElementaryEnum, child_count: 3 }));
    let enum_branches = out
        .iter()
        .filter(|e| matches!(e, DfsPostorderEvent::Branch { tag: EventTag::ElementaryEnum, .. }))
        .count();
    assert_eq!(enum_branches, 1);
    assert_eq!(leaves(&out, &[EventTag::U32]), ctx.u32.len());
    assert_eq!(leaves(&out, &[EventTag::String, EventTag::EnumVariantName]), ctx.strings.len());
}

#[test]
fn enum_events_carry_payloads_in_order() {
    let package = ready_package(false);
    let mut ctx = EventGenerationContext::new();
    let mut out = Vec::new();
    EnumId(1).to_events(&mut ctx, &package, &mut out);
    assert_eq!(
        ctx.strings,
        vec![
            "60726927-5a79-485a-bf43-9b561149883a".to_string(),
            "IdempotentHandling".to_string(),
            "60726927-5a79-485a-bf43-9b561149883a".to_string(),
            "variants".to_string(),
            "Accept".to_string(),
            "Reject".to_string(),
        ]
    );
    assert_eq!(ctx.u32, vec![10, 1, 11, 11, 2, 12, 12]);
}

#[test]
fn documentation_adds_a_child() {
    let package = ready_package(true);
    let mut ctx = EventGenerationContext::new();
    let mut out = Vec::new();
    EnumId(1).to_events(&mut ctx, &package, &mut out);
    assert_eq!(trees_in(&out), Some(1));
    assert_eq!(out.last(), Some(&DfsPostorderEvent::Branch { tag: EventTag::ElementaryEnum, child_count: 4 }));
    assert_eq!(ctx.strings.last(), Some(&" the handling of repeated keys".to_string()));
}

#[test]
fn shape_events() {
    let package = ready_package(false);
    let mut ctx = EventGenerationContext::new();
    let mut out = Vec::new();
    ShapeId(1).to_events(&mut ctx, &package, &mut out);
    assert_eq!(
        out,
        vec![
            DfsPostorderEvent::Leaf { tag: EventTag::U32 },
            DfsPostorderEvent::Branch { tag: EventTag::CompilerIdentifier, child_count: 1 },
            DfsPostorderEvent::Leaf { tag: EventTag::String },
            DfsPostorderEvent::Branch { tag: EventTag::Uuid, child_count: 1 },
            DfsPostorderEvent::Branch { tag: EventTag::EvolutionaryIdentifier, child_count: 1 },
            DfsPostorderEvent::Leaf { tag: EventTag::String },
            DfsPostorderEvent::Branch { tag: EventTag::ShapeName, child_count: 1 },
            DfsPostorderEvent::Branch { tag: EventTag::Shape, child_count: 3 },
        ]
    );
}

#[test]
fn variant_events() {
    let package = ready_package(false);
    let mut ctx = EventGenerationContext::new();
    let mut out = Vec::new();
    EnumVariantId(1).to_events(&mut ctx, &package, &mut out);
    assert_eq!(trees_in(&out), Some(1));
    assert_eq!(out.last(), Some(&DfsPostorderEvent::Branch { tag: EventTag::EnumVariantUnit, child_count: 4 }));
    assert_eq!(ctx.strings, vec!["Accept".to_string()]);
    assert_eq!(ctx.u32, vec![1, 11, 11]);
}

#[test]
fn evolve_id_events() {
    let package = ready_package(false);
    let mut ctx = EventGenerationContext::new();
    let mut out = Vec::new();
    EvolveId(1).to_events(&mut ctx, &package, &mut out);
    EvolveId(2).to_events(&mut ctx, &package, &mut out);
    assert_eq!(
        out,
        vec![
            DfsPostorderEvent::Leaf { tag: EventTag::String },
            DfsPostorderEvent::Branch { tag: EventTag::Uuid, child_count: 1 },
            DfsPostorderEvent::Branch { tag: EventTag::GlobalIdentifier, child_count: 1 },
            DfsPostorderEvent::Leaf { tag: EventTag::U32 },
            DfsPostorderEvent::Branch { tag: EventTag::LocalIdentifier, child_count: 1 },
        ]
    );
    assert_eq!(ctx.u32, vec![1]);
    assert_eq!(trees_in(&out), Some(2));
}

#[test]
fn compiler_id_events() {
    let mut ctx = EventGenerationContext::new();
    let mut out = Vec::new();
    CompilerId(42).to_events(&mut ctx, &mut out);
    assert_eq!(
        out,
        vec![
            DfsPostorderEvent::Leaf { tag: EventTag::U32 },
            DfsPostorderEvent::Branch { tag: EventTag::CompilerIdentifier, child_count: 1 },
        ]
    );
    assert_eq!(ctx.u32, vec![42]);
}

/// A subtree rebuilt from a post-order stream.
struct Subtree {
    tag: EventTag,
    children: Vec<Subtree>,
}

fn rebuild(events: &[DfsPostorderEvent<EventTag>]) -> Vec<Subtree> {
    let mut stack: Vec<Subtree> = Vec::new();
    for e in events {
        match e {
            DfsPostorderEvent::Leaf { tag } => stack.push(Subtree { tag: *tag, children: vec![] }),
            DfsPostorderEvent::Branch { tag, child_count } => {
                let children = stack.split_off(stack.len() - child_count);
                stack.push(Subtree { tag: *tag, children });
            }
        }
    }
    stack
}

/// A pattern node rebuilt from the parser's pre-order columns.
struct Pat {
    tag: PatternTag<EventTag>,
    children: Vec<Pat>,
}

fn rebuild_pattern(p: &primal_rpc::pattern::Pattern<EventTag, String>, at: &mut usize) -> Pat {
    let i = *at;
    *at += 1;
    let mut children = vec![];
    for _ in 0..p.child_count[i] {
        children.push(rebuild_pattern(p, at));
    }
    Pat { tag: p.tag[i], children }
}

fn matches_one(t: &Subtree, p: &Pat) -> bool {
    match p.tag {
        PatternTag::Tag(tag) => t.tag == tag && (p.children.is_empty() || matches_seq(&t.children, &p.children)),
        PatternTag::Top => true,
        PatternTag::Alternation => p.children.iter().any(|alt| matches_one(t, alt)),
        _ => false,
    }
}

fn matches_seq(ts: &[Subtree], ps: &[Pat]) -> bool {
    if ps.is_empty() {
        return ts.is_empty();
    }
    let p = &ps[0];
    match p.tag {
        PatternTag::Maybe => {
            matches_seq(ts, &ps[1..])
                || (!ts.is_empty() && matches_seq(&ts[..1], &p.children) && matches_seq(&ts[1..], &ps[1..]))
        }
        PatternTag::Plus | PatternTag::Many => {
            let min = if matches!(p.tag, PatternTag::Plus) { 1 } else { 0 };
            (min..=ts.len()).any(|n| {
                ts[..n].iter().all(|t| p.children.iter().any(|c| matches_one(t, c))) && matches_seq(&ts[n..], &ps[1..])
            })
        }
        _ => !ts.is_empty() && matches_one(&ts[0], p) && matches_seq(&ts[1..], &ps[1..]),
    }
}

fn conforms(t: &Subtree) -> bool {
    let own = match t.tag.pattern() {
        None => true,
        Some(text) => {
            let ctx = primal_rpc::pattern::PatternsParseCtx::new(&text).expect("a pattern");
            let mut at = 0;
            let p = rebuild_pattern(&ctx.pattern, &mut at);
            matches_one(t, &p)
        }
    };
    own && t.children.iter().all(conforms)
}

#[test]
fn enum_events_match_their_patterns() {
    for with_docs in [false, true] {
        let package = ready_package(with_docs);
        let mut ctx = EventGenerationContext::new();
        let mut out = Vec::new();
        EnumId(1).to_events(&mut ctx, &package, &mut out);
        let trees = rebuild(&out);
        assert_eq!(trees.len(), 1);
        assert!(conforms(&trees[0]));
    }
}

#[test]
fn a_wrong_child_breaks_conformance() {
    let t = Subtree {
        tag: EventTag::LocalIdentifier,
        children: vec![Subtree { tag: EventTag::String, children: vec![] }],
    };
    assert!(!conforms(&t));
}
