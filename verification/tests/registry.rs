use cdc_pipeline::schema::KnownColumnSet;

fn s(x: &str) -> String {
    x.to_string()
}

#[test]
fn base_columns_are_known_at_startup() {
    let known = KnownColumnSet::new();
    for name in ["_id", "itemid", "operation_type", "collection", "type", "timestamp"] {
        assert!(known.contains_name(&s(name)));
    }
    assert!(!known.contains_name(&s("name")));
}

#[test]
fn migrating_a_field_twice_records_it_once() {
    let mut known = KnownColumnSet::new();
    assert!(!known.contains_name(&s("speed")));
    known.record_migrated(s("speed"));
    assert!(known.contains_name(&s("speed")));
    // a second migration of the same field is a no-op, not an error
    known.record_migrated(s("speed"));
    assert!(known.contains_name(&s("speed")));
    let again = known.novel_fields(&vec![s("speed")]);
    assert!(again.is_empty());
}

#[test]
fn novel_fields_are_exactly_the_unknown_ones() {
    let known = KnownColumnSet::new();
    let fields = vec![s("_id"), s("name"), s("age"), s("timestamp")];
    let novel = known.novel_fields(&fields);
    assert_eq!(novel, vec![s("name"), s("age")]);
}

#[test]
fn novel_fields_empty_after_migration() {
    let mut known = KnownColumnSet::new();
    let fields = vec![s("_id"), s("name"), s("age")];
    let novel = known.novel_fields(&fields);
    assert_eq!(novel, vec![s("name"), s("age")]);
    for f in novel {
        known.record_migrated(f);
    }
    let second = known.novel_fields(&fields);
    assert!(second.is_empty());
}

#[test]
fn novel_fields_preserve_document_order() {
    let known = KnownColumnSet::new();
    let fields = vec![s("zeta"), s("alpha"), s("collection"), s("mid")];
    let novel = known.novel_fields(&fields);
    assert_eq!(novel, vec![s("zeta"), s("alpha"), s("mid")]);
}
