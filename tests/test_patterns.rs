use primal_rpc::events::tags::EventTag;
use primal_rpc::pattern::{PatternTag, PatternsParseCtx};
use primal_rpc::v1::parser::ParseSpecError;

#[test]
fn every_tag_pattern_parses() {
    for t in EventTag::all() {
        if let Some(p) = t.pattern() {
            let ctx = PatternsParseCtx::new(&p).unwrap_or_else(|e| panic!("{:?}: {:?}", t, e));
            assert_eq!(ctx.pattern.tag[0], PatternTag::Tag(t));
            let n = ctx.pattern.tag.len();
            assert_eq!(ctx.pattern.child_count.len(), n);
            assert_eq!(ctx.pattern.value_pattern.len(), n);
            assert_eq!(ctx.pattern.ordered_children.len(), n);
            assert_eq!(ctx.pattern.doc.len(), n);
        }
    }
}

#[test]
fn pattern_nodes_are_in_pre_order() {
    let ctx = PatternsParseCtx::new("(EvolutionaryIdentifier (+ (| String Uuid U32)))").expect("a pattern");
    assert_eq!(
        ctx.pattern.tag,
        vec![
            PatternTag::Tag(EventTag::EvolutionaryIdentifier),
            PatternTag::Plus,
            PatternTag::Alternation,
            PatternTag::Tag(EventTag::String),
            PatternTag::Tag(EventTag::Uuid),
            PatternTag::Tag(EventTag::U32),
        ]
    );
    assert_eq!(ctx.pattern.child_count, vec![1, 1, 3, 0, 0, 0]);
}

#[test]
fn string_arguments_are_value_patterns() {
    let ctx = PatternsParseCtx::new("(FieldKey (String \"variants\"))").expect("a pattern");
    assert_eq!(ctx.pattern.tag, vec![PatternTag::Tag(EventTag::FieldKey), PatternTag::Tag(EventTag::String)]);
    assert_eq!(ctx.pattern.child_count, vec![1, 0]);
    assert_eq!(ctx.pattern.value_pattern, vec![None, Some("variants".to_string())]);
}

#[test]
fn tag_names_are_case_insensitive() {
    let ctx = PatternsParseCtx::new("(compileridentifier u32) (? _)").expect("a pattern");
    assert_eq!(
        ctx.pattern.tag,
        vec![
            PatternTag::Tag(EventTag::CompilerIdentifier),
            PatternTag::Tag(EventTag::U32),
            PatternTag::Maybe,
            PatternTag::Top,
        ]
    );
}

#[test]
fn unknown_tags_are_undefined() {
    let e = PatternsParseCtx::new("(Field FieldKey FieldValu)").err().expect("an error");
    assert!(matches!(e.value, ParseSpecError::UndefinedSymbol), "{:?}", e);
    assert_eq!(e.locations.len(), 1);
    assert_eq!(e.locations[0].column, 16);
}

#[test]
fn test_parse() {
    let source = r#"
        (pattern
            (tag "a")
            (child_count 1)
            (ordered_children true)
            (value_pattern "a")
            (doc "a")
        )
        "#;
    let _ctx = PatternsParseCtx::new(source);
}
