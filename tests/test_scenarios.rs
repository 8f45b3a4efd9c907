use primal_rpc::v1::ids::SourceId;
use primal_rpc::v1::parser::{AttributeKind, ParseSpecError, SyntaxError};
use primal_rpc::v1::types::{Enumeration, Package};
use primal_rpc::v1::validators::VariantNameValidError;
use primal_rpc::v1::ParseSpecContext;

fn parse(content: &str) -> (Result<(), SyntaxError>, Package) {
    let mut package = Package::default();
    let r = ParseSpecContext::new(SourceId(1), content, &mut package).map(|_| ());
    (r, package)
}

fn error_of(content: &str) -> SyntaxError {
    let (r, _) = parse(content);
    let e = r.expect_err("expected a syntax error");
    assert!(!e.locations.is_empty() && e.locations.len() <= 2, "locations: {:?}", e.locations);
    e
}

fn enum_with(variants: &str) -> String {
    format!(
        "(version \"1\")\n(def Sample\n  (id \"56ecc9e7-1867-4a0e-850d-bf4393b8e2c0\")\n  (enum :variants [\n{}\n  ]))\n",
        variants
    )
}

#[test]
fn missing_version_is_rejected() {
    let e = error_of("(def Sample (id 1) (enum :variants [(id 1) :A]))");
    assert!(matches!(e.value, ParseSpecError::IDLMissingVersion), "{:?}", e);
}

#[test]
fn unsupported_version_names_what_was_given() {
    let e = error_of("(version \"2\")");
    match e.value {
        ParseSpecError::UnsupportedIDLVersion { got, expecting } => {
            assert_eq!(got, "2");
            assert_eq!(expecting, vec!["1".to_string()]);
        }
        other => panic!("unexpected {:?}", other),
    }
}

#[test]
fn version_must_be_a_string() {
    let e = error_of("(version 1)");
    match e.value {
        ParseSpecError::TypeError { expected, got } => {
            assert_eq!(expected, "str_lit");
            assert_eq!(got, "num_lit");
        }
        other => panic!("unexpected {:?}", other),
    }
}

#[test]
fn outer_local_id_zero_cannot_be_zero() {
    let e = error_of("(version \"1\") (def Sample (id 0) (enum :variants [(id 1) :A]))");
    assert!(matches!(e.value, ParseSpecError::CantBeZero), "{:?}", e);
}

#[test]
fn outer_local_id_overflow_is_a_type_error() {
    let e = error_of("(version \"1\") (def Sample (id 5000000000) (enum :variants [(id 1) :A]))");
    match e.value {
        ParseSpecError::TypeError { expected, got } => {
            assert_eq!(expected, "u32");
            assert_eq!(got, "num_lit");
        }
        other => panic!("unexpected {:?}", other),
    }
}

#[test]
fn outer_local_id_is_accepted() {
    let (r, package) = parse("(version \"1\") (def Sample (id 7) (enum :variants [(id 1) :A]))");
    assert!(r.is_ok(), "{:?}", r);
    assert_eq!(package.enumerations.len(), 1);
    match &package.enumerations[0] {
        Enumeration::Elementary { id, variants, .. } => {
            assert_eq!(variants.len(), 1);
            match package.evolution_ids[(id.0 - 1) as usize] {
                primal_rpc::v1::types::EvolveTrack::Local(v) => assert_eq!(v, 7),
                other => panic!("unexpected {:?}", other),
            }
        }
        _ => panic!("expected an elementary enumeration"),
    }
}

#[test]
fn outer_uuid_is_recorded_as_its_value() {
    let (r, package) = parse(&enum_with("(id 1) :A"));
    assert!(r.is_ok(), "{:?}", r);
    match package.evolution_ids[0] {
        primal_rpc::v1::types::EvolveTrack::Uuid(v) => assert_eq!(v, 0x56ecc9e7_1867_4a0e_850d_bf4393b8e2c0),
        other => panic!("unexpected {:?}", other),
    }
}

#[test]
fn variant_without_id_reports_zero_ids() {
    let e = error_of(&enum_with(":PascalCase"));
    assert!(matches!(e.value, ParseSpecError::InvalidNumbersOfIds { expected: 1, got: 0 }), "{:?}", e);
}

#[test]
fn variant_with_two_ids_reports_two_ids() {
    let e = error_of(&enum_with("(id 1) (id 2) :PascalCase"));
    assert!(matches!(e.value, ParseSpecError::InvalidNumbersOfIds { expected: 1, got: 2 }), "{:?}", e);
}

#[test]
fn repeated_local_id_points_at_both_ids() {
    let e = error_of(&enum_with("(id 1)\n :First\n (id 1)\n :Second"));
    assert!(matches!(e.value, ParseSpecError::ConflictIdDefinition), "{:?}", e);
    assert_eq!(e.locations.len(), 2);
    assert_eq!(e.locations[0].row, 6);
    assert_eq!(e.locations[1].row, 4);
}

#[test]
fn repeated_name_points_at_both_keys() {
    let e = error_of(&enum_with("(id 1)\n :Same\n (id 2)\n :Same"));
    assert!(matches!(e.value, ParseSpecError::ConflictVariantNameDefinition), "{:?}", e);
    assert_eq!(e.locations.len(), 2);
    assert_eq!(e.locations[0].row, 7);
    assert_eq!(e.locations[1].row, 5);
}

#[test]
fn names_conflict_regardless_of_case() {
    let e = error_of(&enum_with("(id 1) :AbC (id 2) :Abc"));
    assert!(matches!(e.value, ParseSpecError::ConflictVariantNameDefinition), "{:?}", e);
}

#[test]
fn global_id_on_a_variant_is_rejected() {
    let e = error_of(&enum_with("(id \"56ecc9e7-1867-4a0e-850d-bf4393b8e2c0\") :PascalCase"));
    assert!(
        matches!(
            e.value,
            ParseSpecError::InvalidId {
                expected: primal_rpc::v1::parser::IdKind::Local,
                got: primal_rpc::v1::parser::IdKind::Global
            }
        ),
        "{:?}",
        e
    );
}

#[test]
fn trailing_id_attaches_to_nothing() {
    let e = error_of(&enum_with("(id 1) :A (id 2)"));
    assert!(matches!(e.value, ParseSpecError::UnattachedAttribute { kind: AttributeKind::Id }), "{:?}", e);
}

#[test]
fn positional_value_in_variants_is_rejected() {
    let e = error_of(&enum_with("Loose"));
    assert!(matches!(e.value, ParseSpecError::ExpectingKeyValue), "{:?}", e);
}

#[test]
fn variant_payload_is_rejected() {
    let e = error_of(&enum_with("(id 1) :A \"payload\""));
    match e.value {
        ParseSpecError::TypeError { expected, got } => {
            assert_eq!(expected, "unit");
            assert_eq!(got, "str_lit");
        }
        other => panic!("unexpected {:?}", other),
    }
}

#[test]
fn unknown_top_level_symbol_is_undefined() {
    let e = error_of("(version \"1\") (struct Sample)");
    assert!(matches!(e.value, ParseSpecError::UndefinedSymbol), "{:?}", e);
}

#[test]
fn unknown_form_is_not_found() {
    let e = error_of("(version \"1\") (def Sample (id 1) (Record :fields []))");
    match e.value {
        ParseSpecError::FunctionNotFound { name } => assert_eq!(name, "record"),
        other => panic!("unexpected {:?}", other),
    }
}

#[test]
fn def_needs_three_arguments() {
    let e = error_of("(version \"1\") (def Sample (id 1))");
    assert!(
        matches!(e.value, ParseSpecError::InvalidNumberOfArguments { expected: 3, got: 2 }),
        "{:?}",
        e
    );
}

#[test]
fn def_resource_cannot_be_an_id() {
    let e = error_of("(version \"1\") (def Sample (id 1) (id 2))");
    match e.value {
        ParseSpecError::TypeError { expected, got } => {
            assert_eq!(expected, "resource");
            assert_eq!(got, "id");
        }
        other => panic!("unexpected {:?}", other),
    }
}

#[test]
fn def_identity_must_be_an_id() {
    let e = error_of("(version \"1\") (def Sample (enum :variants [(id 1) :A]) (enum :variants [(id 1) :A]))");
    match e.value {
        ParseSpecError::TypeError { expected, got } => {
            assert_eq!(expected, "id");
            assert_eq!(got, "enum");
        }
        other => panic!("unexpected {:?}", other),
    }
}

#[test]
fn unknown_enum_property_is_unsupported() {
    let e = error_of("(version \"1\") (def Sample (id 1) (enum :shape []))");
    match e.value {
        ParseSpecError::UnsupportedProperty { expected, got } => {
            assert_eq!(got, "shape");
            assert_eq!(expected.iter().cloned().collect::<Vec<String>>(), vec!["variants".to_string(), "tag".to_string(), "content".to_string()]);
        }
        other => panic!("unexpected {:?}", other),
    }
}

#[test]
fn variants_must_be_a_vector() {
    let e = error_of("(version \"1\") (def Sample (id 1) (enum :variants \"A\"))");
    match e.value {
        ParseSpecError::TypeError { expected, got } => {
            assert_eq!(expected, "vec_lit");
            assert_eq!(got, "str_lit");
        }
        other => panic!("unexpected {:?}", other),
    }
}

#[test]
fn an_id_form_closes_the_open_keyword() {
    let e = error_of("(version \"1\") (def Sample (id 1) (enum :variants (id 1)))");
    assert!(matches!(e.value, ParseSpecError::MissingValue), "{:?}", e);
}

#[test]
fn variants_need_a_value() {
    let e = error_of("(version \"1\") (def Sample (id 1) (enum :variants))");
    assert!(matches!(e.value, ParseSpecError::MissingValue), "{:?}", e);
}

#[test]
fn enum_needs_variants() {
    let e = error_of("(version \"1\") (def Sample (id 1) (enum))");
    assert!(matches!(e.value, ParseSpecError::MissingValue), "{:?}", e);
}

#[test]
fn first_error_wins() {
    let e = error_of(&enum_with("(id 1) :First-Town (id 1) :camelCase"));
    assert!(
        matches!(e.value, ParseSpecError::InvalidEnumVariantName { cause: VariantNameValidError::Pattern }),
        "{:?}",
        e
    );
}

#[test]
fn metadata_becomes_interned_tags() {
    let (r, package) = parse(&enum_with("^idempotent (id 1) :A ^idempotent (id 2) :B"));
    assert!(r.is_ok(), "{:?}", r);
    assert_eq!(package.enum_variant.len(), 2);
    assert_eq!(package.enum_variant[0].tags.len(), 1);
    assert_eq!(package.enum_variant[1].tags.len(), 1);
    assert_eq!(package.lit_tags.len(), 2);
    assert_eq!(package.interned_tags.len(), 1);
    assert_eq!(package.interned_tags[0].value, "idempotent");
    assert_eq!(package.lit_tags_span.len(), package.lit_tags.len());
}

#[test]
fn spans_run_parallel_to_columns() {
    let (r, package) = parse(&enum_with(";; doc\n(id 1) :A (id 2) :B"));
    assert!(r.is_ok(), "{:?}", r);
    assert_eq!(package.evolution_ids.len(), 3);
    assert_eq!(package.evolution_span.len(), package.evolution_ids.len());
    assert_eq!(package.enum_variant_span.len(), package.enum_variant.len());
    assert_eq!(package.docs_span.len(), package.docs.len());
    assert_eq!(package.keys_span.len(), package.keys.len());
    assert_eq!(package.enumerations_span.len(), package.enumerations.len());
    assert_eq!(package.definitions_spans.len(), package.definitions.len());
}

#[test]
fn ids_follow_allocation_order() {
    let (r, package) = parse(&enum_with("(id 3) :A (id 1) :B (id 2) :C"));
    assert!(r.is_ok(), "{:?}", r);
    match &package.enumerations[0] {
        Enumeration::Elementary { variants, .. } => {
            let raws: Vec<u32> = variants.iter().map(|v| v.0).collect();
            assert_eq!(raws, vec![1, 2, 3]);
            let locals: Vec<u32> = variants
                .iter()
                .map(|v| {
                    let local_id = package.enum_variant[(v.0 - 1) as usize].local_id;
                    match package.evolution_ids[(local_id.0 - 1) as usize] {
                        primal_rpc::v1::types::EvolveTrack::Local(n) => n,
                        other => panic!("unexpected {:?}", other),
                    }
                })
                .collect();
            assert_eq!(locals, vec![3, 1, 2]);
            let evolve_raws: Vec<u32> = variants.iter().map(|v| package.enum_variant[(v.0 - 1) as usize].local_id.0).collect();
            assert_eq!(evolve_raws, vec![2, 3, 4]);
        }
        _ => panic!("expected an elementary enumeration"),
    }
}

#[test]
fn discriminated_union_properties_are_reserved() {
    let e = error_of("(version \"1\") (def Sample (id 1) (enum :tag x))");
    match e.value {
        ParseSpecError::Custom(text) => assert_eq!(text, "discriminated unions are not supported"),
        other => panic!("unexpected {:?}", other),
    }
}

#[test]
fn errors_name_their_source() {
    let mut package = Package::default();
    let e = ParseSpecContext::new(SourceId(7), "(version \"2\")", &mut package).err().expect("an error");
    assert_eq!(e.source_id, SourceId(7));
}

#[test]
fn missing_version_leaves_the_package_empty() {
    let (r, package) = parse("(def Sample (id 1) (enum :variants [(id 1) :A]))");
    let e = r.expect_err("expected a syntax error");
    assert!(matches!(e.value, ParseSpecError::IDLMissingVersion), "{:?}", e);
    assert_eq!(e.locations.len(), 1);
    assert_eq!((e.locations[0].row, e.locations[0].column), (0, 1));
    assert!(package.evolution_ids.is_empty());
    assert!(package.enumerations.is_empty());
    assert!(package.definitions.is_empty());
}
