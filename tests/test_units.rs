use primal_rpc::events::tags::EventTag;
use primal_rpc::v1::cst::parse_source;
use primal_rpc::v1::literals::{parse_u32, parse_uuid, uuid_text};
use primal_rpc::v1::validators::{check_variant_name, is_enum_variant_valid, VariantNameValidError};

#[test]
fn variant_names_follow_the_form() {
    assert_eq!(is_enum_variant_valid("First-Town"), Err(VariantNameValidError::Pattern));
    assert_eq!(is_enum_variant_valid("1st"), Err(VariantNameValidError::Pattern));
    assert_eq!(is_enum_variant_valid(""), Err(VariantNameValidError::Pattern));
    assert_eq!(is_enum_variant_valid("camelCase"), Err(VariantNameValidError::PascalCase));
    assert_eq!(is_enum_variant_valid("Accept"), Ok(()));
    assert_eq!(is_enum_variant_valid("Http2Accept"), Ok(()));
}

#[test]
fn variant_name_verdict_takes_the_pascal_form() {
    assert_eq!(check_variant_name("Accept", "Accept"), Ok(()));
    assert_eq!(check_variant_name("accept", "Accept"), Err(VariantNameValidError::PascalCase));
    assert_eq!(check_variant_name("a-b", "AB"), Err(VariantNameValidError::Pattern));
}

#[test]
fn decimal_u32_reading() {
    assert_eq!(parse_u32("42"), Some(42));
    assert_eq!(parse_u32("+7"), Some(7));
    assert_eq!(parse_u32("0"), Some(0));
    assert_eq!(parse_u32("4294967295"), Some(u32::MAX));
    assert_eq!(parse_u32("4294967296"), None);
    assert_eq!(parse_u32("5000000000"), None);
    assert_eq!(parse_u32(""), None);
    assert_eq!(parse_u32("+"), None);
    assert_eq!(parse_u32("-1"), None);
    assert_eq!(parse_u32("1x"), None);
}

#[test]
fn uuid_reading_and_writing() {
    assert_eq!(parse_uuid("60726927-5a79-485a-bf43-9b561149883a"), Some(0x60726927_5a79_485a_bf43_9b561149883a));
    assert_eq!(parse_uuid("00000000-0000-0000-0000-000000000000"), Some(0));
    assert_eq!(parse_uuid("bf43-9b561149883a"), None);
    assert_eq!(uuid_text(0x60726927_5a79_485a_bf43_9b561149883a), "60726927-5a79-485a-bf43-9b561149883a");
    assert_eq!(uuid_text(1), "00000000-0000-0000-0000-000000000001");
}

#[test]
fn tags_know_their_leaves_and_patterns() {
    assert!(EventTag::String.is_terminal());
    assert!(EventTag::U32.is_terminal());
    assert!(EventTag::EnumVariantName.is_terminal());
    assert!(!EventTag::Shape.is_terminal());
    assert_eq!(EventTag::U32.pattern(), None);
    assert_eq!(EventTag::LocalIdentifier.pattern(), Some("(LocalIdentifier U32)".to_string()));
    assert_eq!(EventTag::Uuid.pattern(), Some("(Uuid String)".to_string()));
    let all = EventTag::all();
    assert_eq!(all.len(), 18);
    for t in all {
        assert_eq!(t.pattern().is_none(), t.is_terminal());
        if let Some(p) = t.pattern() {
            assert!(p.starts_with(&format!("({}", t.name())));
        }
    }
}

#[test]
fn parsing_copies_the_tree() {
    let root = parse_source("(id 1) ;; doc\n:Key").expect("a tree");
    assert_eq!(root.kind, "source");
    let kinds: Vec<&str> = root.children.iter().map(|c| c.kind.as_str()).collect();
    assert_eq!(kinds, vec!["list_lit", "comment", "kwd_lit"]);
    assert_eq!(root.children[2].text, ":Key");
    assert_eq!(root.children[2].start.row, 1);
    assert_eq!(root.children[0].children.len(), 4);
}
