use primal_rpc::v1::ids::SourceId;
use primal_rpc::v1::types::{Enumeration, EvolveTrack, Package};
use primal_rpc::v1::ParseSpecContext;

#[test]
fn test_elementary_enum_base() {
    let content = r#"
    (version "1")
    (def IdempotentHandling
      (id "60726927-5a79-485a-bf43-9b561149883a")
      (enum
       :variants
       [
       ;; accept the task even if there is one unassigned task with the
       ;; idempotent key and update the accepted_at key but ignore the payload
       (id 1)
       :Accept
       ;; reject the task if the idempotent key is already present within the unassigned task set with a 409 conflict
       (id 2)
       :Reject
       ;; accept the task but do not update the accepted_at field or the payload if there is an unassigned task with the same idempotent key
       (id 3)
       :Ignore
       ;; replace the task payload if the idempotent key is already present within the unassigned task set, this will update the accepted_at field too
       (id 4)
       :Replace
       (id 5)
       ;; only allow one task with the same idempotent key and queue name
       :Unique
       ]
       ))
    "#;
    let source_id = SourceId(1);
    let mut package = Package::default();
    ParseSpecContext::new(source_id, content, &mut package).expect("fail to parse");
}

#[test]
fn elementary_enum_keeps_variants_and_docs() {
    let content = r#"
    (version "1")
    (def IdempotentHandling
      (id "60726927-5a79-485a-bf43-9b561149883a")
      (enum
       :variants
       [
       ;; accept the task
       ;; even if there is one unassigned task
       (id 1)
       :Accept
       ;; reject the task
       (id 2)
       :Reject
       (id 3)
       :Ignore
       (id 4)
       :Replace
       (id 5)
       ;; only allow one task
       :Unique
       ]
       ))
    "#;
    let mut package = Package::default();
    ParseSpecContext::new(SourceId(1), content, &mut package).expect("fail to parse");
    assert_eq!(package.enumerations.len(), 1);
    match &package.enumerations[0] {
        Enumeration::Elementary { id, variants, default, .. } => {
            assert_eq!(id.0, 1);
            assert_eq!(variants.len(), 5);
            assert!(default.is_none());
            let locals: Vec<u32> = variants
                .iter()
                .map(|v| {
                    let local_id = package.enum_variant[(v.0 - 1) as usize].local_id;
                    match package.evolution_ids[(local_id.0 - 1) as usize] {
                        EvolveTrack::Local(n) => n,
                        other => panic!("unexpected {:?}", other),
                    }
                })
                .collect();
            assert_eq!(locals, vec![1, 2, 3, 4, 5]);
            let first = &package.enum_variant[(variants[0].0 - 1) as usize];
            assert_eq!(first.docs.len(), 2);
            assert_eq!(package.docs[(first.docs[0].0 - 1) as usize], " accept the task");
            let last = &package.enum_variant[(variants[4].0 - 1) as usize];
            assert_eq!(last.docs.len(), 1);
            assert_eq!(package.docs[(last.docs[0].0 - 1) as usize], " only allow one task");
        }
        _ => panic!("expected an elementary enumeration"),
    }
    assert_eq!(package.definitions.len(), 1);
    assert_eq!(package.shapes.len(), 1);
    assert_eq!(package.shapes[0].name.as_deref(), Some("IdempotentHandling"));
}
