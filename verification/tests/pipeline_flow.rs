use cdc_pipeline::event::{op_label, ChangeEvent, Operation, ResumeTracker};
use cdc_pipeline::pipeline::{
    add_column_statement, build_insert, create_table_statement, plan_migrations, process_batch,
};
use cdc_pipeline::schema::KnownColumnSet;
use cdc_pipeline::value::DynamicValue;

fn s(x: &str) -> String {
    x.to_string()
}

fn event(
    id: &str,
    operation: Operation,
    collection: Option<&str>,
    document: Option<Vec<(String, DynamicValue)>>,
) -> ChangeEvent {
    ChangeEvent { id: s(id), operation, collection: collection.map(s), document }
}

#[test]
fn create_table_statement_text() {
    assert_eq!(
        create_table_statement(),
        "CREATE TABLE IF NOT EXISTS mongodb_changes (_id String, itemid String, \
         operation_type String, collection String, type String, \
         timestamp DateTime DEFAULT now()) ENGINE = MergeTree() ORDER BY (timestamp, _id)"
    );
}

#[test]
fn add_column_statement_escapes_the_identifier() {
    assert_eq!(
        add_column_statement("age"),
        "ALTER TABLE mongodb_changes ADD COLUMN IF NOT EXISTS age String"
    );
    assert_eq!(
        add_column_statement("user name"),
        "ALTER TABLE mongodb_changes ADD COLUMN IF NOT EXISTS `user name` String"
    );
}

#[test]
fn operation_labels() {
    assert_eq!(op_label(Operation::Insert), "insert");
    assert_eq!(op_label(Operation::Update), "update");
    assert_eq!(op_label(Operation::Replace), "replace");
    assert_eq!(op_label(Operation::Delete), "delete");
    assert_eq!(op_label(Operation::Invalidate), "invalidate");
    assert_eq!(op_label(Operation::Other), "other");
}

#[test]
fn resume_tracker_exposes_latest_token() {
    let mut tracker = ResumeTracker::new();
    assert!(tracker.last_token().is_none());
    tracker.record("token-1");
    tracker.record("token-2");
    assert_eq!(tracker.last_token(), Some(&s("token-2")));
}

#[test]
fn plan_migrations_lists_only_novel_fields() {
    let known = KnownColumnSet::new();
    let e = event(
        "t1",
        Operation::Insert,
        Some("users"),
        Some(vec![
            (s("_id"), DynamicValue::ObjectId(s("507f1f77bcf86cd799439011"))),
            (s("name"), DynamicValue::Text(s("Ann"))),
        ]),
    );
    let steps = plan_migrations(&known, &e);
    assert_eq!(steps.len(), 1);
    assert_eq!(steps[0].field, "name");
    assert_eq!(
        steps[0].statement,
        "ALTER TABLE mongodb_changes ADD COLUMN IF NOT EXISTS name String"
    );
}

#[test]
fn insert_includes_fixed_columns_then_document_fields() {
    let mut known = KnownColumnSet::new();
    known.record_migrated(s("name"));
    known.record_migrated(s("age"));
    let e = event(
        "t1",
        Operation::Insert,
        Some("users"),
        Some(vec![
            (s("name"), DynamicValue::Text(s("Ann"))),
            (s("age"), DynamicValue::Int32(30)),
        ]),
    );
    let stmt = build_insert(&known, &e).unwrap();
    assert_eq!(
        stmt,
        "INSERT INTO mongodb_changes (operation_type, collection, name, age) \
         VALUES ('insert', 'users', 'Ann', 30)"
    );
}

#[test]
fn insert_without_collection_records_unknown() {
    let known = KnownColumnSet::new();
    let e = event("t1", Operation::Insert, None, Some(vec![]));
    let stmt = build_insert(&known, &e).unwrap();
    assert_eq!(
        stmt,
        "INSERT INTO mongodb_changes (operation_type, collection) VALUES ('insert', 'unknown')"
    );
}

#[test]
fn unmigrated_field_is_skipped_not_fatal() {
    // the chosen policy on a failed column migration: the row is still
    // written, without that field's literal
    let mut known = KnownColumnSet::new();
    known.record_migrated(s("name"));
    let e = event(
        "t1",
        Operation::Insert,
        Some("users"),
        Some(vec![
            (s("name"), DynamicValue::Text(s("Ann"))),
            (s("age"), DynamicValue::Int32(30)),
        ]),
    );
    let stmt = build_insert(&known, &e).unwrap();
    assert_eq!(
        stmt,
        "INSERT INTO mongodb_changes (operation_type, collection, name) \
         VALUES ('insert', 'users', 'Ann')"
    );
}

#[test]
fn event_without_document_produces_no_insert() {
    let known = KnownColumnSet::new();
    let delete = event("t9", Operation::Delete, Some("users"), None);
    assert!(build_insert(&known, &delete).is_none());
    assert!(plan_migrations(&known, &delete).is_empty());
    let invalidate = event("t10", Operation::Invalidate, None, None);
    assert!(build_insert(&known, &invalidate).is_none());
    assert!(plan_migrations(&known, &invalidate).is_empty());
}

#[test]
fn end_to_end_two_events() {
    let mut known = KnownColumnSet::new();
    let e1 = event(
        "t1",
        Operation::Insert,
        Some("users"),
        Some(vec![
            (s("name"), DynamicValue::Text(s("Ann"))),
            (s("age"), DynamicValue::Int32(30)),
        ]),
    );
    let e2 = event(
        "t2",
        Operation::Update,
        Some("users"),
        Some(vec![
            (s("name"), DynamicValue::Text(s("Ann"))),
            (s("age"), DynamicValue::Int32(31)),
            (s("tags"), DynamicValue::Array(vec![DynamicValue::Text(s("vip"))])),
        ]),
    );
    let plan = process_batch(&mut known, &vec![e1, e2]);
    assert_eq!(
        plan.ddl,
        vec![
            s("ALTER TABLE mongodb_changes ADD COLUMN IF NOT EXISTS name String"),
            s("ALTER TABLE mongodb_changes ADD COLUMN IF NOT EXISTS age String"),
            s("ALTER TABLE mongodb_changes ADD COLUMN IF NOT EXISTS tags String"),
        ]
    );
    assert_eq!(plan.inserts.len(), 2);
    assert_eq!(
        plan.inserts[0],
        "INSERT INTO mongodb_changes (operation_type, collection, name, age) \
         VALUES ('insert', 'users', 'Ann', 30)"
    );
    assert_eq!(
        plan.inserts[1],
        "INSERT INTO mongodb_changes (operation_type, collection, name, age, tags) \
         VALUES ('update', 'users', 'Ann', 31, '[\"vip\"]')"
    );
    assert!(known.contains_name(&s("name")));
    assert!(known.contains_name(&s("age")));
    assert!(known.contains_name(&s("tags")));
}

#[test]
fn inserts_keep_emission_order_for_an_evolving_field() {
    let mut known = KnownColumnSet::new();
    let mut events = Vec::new();
    for (i, val) in [10, 20, 30].iter().enumerate() {
        events.push(event(
            &format!("t{}", i),
            if i == 0 { Operation::Insert } else { Operation::Update },
            Some("meters"),
            Some(vec![(s("reading"), DynamicValue::Int32(*val))]),
        ));
    }
    let plan = process_batch(&mut known, &events);
    assert_eq!(plan.inserts.len(), 3);
    assert!(plan.inserts[0].ends_with("VALUES ('insert', 'meters', 10)"));
    assert!(plan.inserts[1].ends_with("VALUES ('update', 'meters', 20)"));
    assert!(plan.inserts[2].ends_with("VALUES ('update', 'meters', 30)"));
    // the column is added once, by the first event
    assert_eq!(plan.ddl.len(), 1);
}

#[test]
fn delete_between_updates_is_passed_through_without_a_row() {
    let mut known = KnownColumnSet::new();
    let e1 = event("t1", Operation::Insert, Some("users"), Some(vec![(s("n"), DynamicValue::Int32(1))]));
    let e2 = event("t2", Operation::Delete, Some("users"), None);
    let e3 = event("t3", Operation::Update, Some("users"), Some(vec![(s("n"), DynamicValue::Int32(2))]));
    let plan = process_batch(&mut known, &vec![e1, e2, e3]);
    assert_eq!(plan.inserts.len(), 2);
    assert!(plan.inserts[0].contains("'insert'"));
    assert!(plan.inserts[1].contains("'update'"));
}
