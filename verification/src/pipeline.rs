//! Per-event planning: which columns to add for a document, and the
//! row-insert statement to issue — together with the batch model that
//! captures the whole consumption loop.

use vstd::prelude::*;
use crate::event::{ChangeEvent, collection_label, op_label, spec_op_label};
use crate::schema::{add_all, novel_of, KnownColumnSet};
use crate::text::{
    comma_join, escape_column_name, ident_escaped, literal_quoted, quote_literal, views_of,
};
use crate::value::{encode_value, encoded, DynamicValue};

verus! {

/// The statement that bootstraps the destination table.
pub open spec fn create_table_text() -> Seq<char> {
    "CREATE TABLE IF NOT EXISTS mongodb_changes (_id String, itemid String, operation_type String, collection String, type String, timestamp DateTime DEFAULT now()) ENGINE = MergeTree() ORDER BY (timestamp, _id)"@
}

/// The idempotent statement that bootstraps the destination table:
/// the fixed base columns, ordered by timestamp then event id.
pub fn create_table_statement() -> (r: &'static str)
    ensures
        r@ == create_table_text(),
{
    "CREATE TABLE IF NOT EXISTS mongodb_changes (_id String, itemid String, operation_type String, collection String, type String, timestamp DateTime DEFAULT now()) ENGINE = MergeTree() ORDER BY (timestamp, _id)"
}

/// The additive, idempotent statement that adds one column for a raw
/// field name, in its escaped identifier form, typed generically.
pub open spec fn add_column_text(field: Seq<char>) -> Seq<char> {
    "ALTER TABLE mongodb_changes ADD COLUMN IF NOT EXISTS "@ + ident_escaped(field)
        + " String"@
}

/// Builds the additive column statement for a raw field name.
pub fn add_column_statement(field: &str) -> (r: String)
    ensures
        r@ == add_column_text(field@),
{
    let mut out = "ALTER TABLE mongodb_changes ADD COLUMN IF NOT EXISTS ".to_owned();
    let escaped = escape_column_name(field);
    out.append(escaped.as_str());
    out.append(" String");
    proof {
        assert(out@ =~= add_column_text(field@));
    }
    out
}

/// The fields of an event's document snapshot; empty when the event
/// carries none.
pub open spec fn doc_fields(e: ChangeEvent) -> Seq<(String, DynamicValue)> {
    match e.document {
        Some(doc) => doc@,
        None => Seq::empty(),
    }
}

/// The raw field names of a document, in document order.
pub open spec fn keys_of(doc: Seq<(String, DynamicValue)>) -> Seq<Seq<char>>
    decreases doc.len(),
{
    if doc.len() == 0 {
        Seq::empty()
    } else {
        keys_of(doc.drop_last()).push(doc.last().0@)
    }
}

/// The raw field names an event's document contributes.
pub open spec fn event_keys(e: ChangeEvent) -> Seq<Seq<char>> {
    keys_of(doc_fields(e))
}

/// One planned schema migration: the raw field name, and the additive
/// column statement to issue for it.
pub struct MigrationStep {
    pub field: String,
    pub statement: String,
}

/// Plans the schema migrations an event requires: one additive column
/// statement for each document field not yet known, in document order.
/// An event without a document snapshot requires none.
pub fn plan_migrations(known: &KnownColumnSet, event: &ChangeEvent) -> (r: Vec<MigrationStep>)
    ensures
        r@.len() == novel_of(known@, event_keys(*event)).len(),
        forall|i: int|
            0 <= i < r@.len() ==> (#[trigger] r@[i]).field@ == novel_of(
                known@,
                event_keys(*event),
            )[i] && r@[i].statement@ == add_column_text(novel_of(known@, event_keys(*event))[i]),
{
    let mut out: Vec<MigrationStep> = Vec::new();
    match &event.document {
        None => {
            proof {
                assert(doc_fields(*event) =~= Seq::<(String, DynamicValue)>::empty());
                assert(novel_of(known@, event_keys(*event)) =~= Seq::<Seq<char>>::empty());
            }
        },
        Some(doc) => {
            let n = doc.len();
            let mut i: usize = 0;
            proof {
                assert(doc@.take(0) =~= Seq::<(String, DynamicValue)>::empty());
                assert(novel_of(known@, keys_of(doc@.take(0))) =~= Seq::<Seq<char>>::empty());
            }
            while i < n
                invariant
                    n == doc@.len(),
                    i <= n,
                    out@.len() == novel_of(known@, keys_of(doc@.take(i as int))).len(),
                    forall|k: int|
                        0 <= k < out@.len() ==> (#[trigger] out@[k]).field@ == novel_of(
                            known@,
                            keys_of(doc@.take(i as int)),
                        )[k] && out@[k].statement@ == add_column_text(
                            novel_of(known@, keys_of(doc@.take(i as int)))[k],
                        ),
                decreases n - i,
            {
                if !known.contains_name(&doc[i].0) {
                    let step = MigrationStep {
                        field: doc[i].0.clone(),
                        statement: add_column_statement(doc[i].0.as_str()),
                    };
                    out.push(step);
                }
                proof {
                    let t = doc@.take(i + 1);
                    assert(t.drop_last() =~= doc@.take(i as int));
                    assert(t.last() == doc@[i as int]);
                    let ks = keys_of(t);
                    assert(ks.drop_last() =~= keys_of(doc@.take(i as int)));
                    assert(ks.last() == doc@[i as int].0@);
                    assert(novel_of(known@, ks) == novel_of(known@, ks.drop_last()) + (
                    if known@.contains(ks.last()) {
                        Seq::<Seq<char>>::empty()
                    } else {
                        seq![ks.last()]
                    }));
                }
                i = i + 1;
            }
            proof {
                assert(doc@.take(n as int) =~= doc@);
            }
        },
    }
    out
}

/// The escaped identifiers of the document fields that are known
/// columns, in document order.
pub open spec fn kept_idents(cols: Seq<Seq<char>>, doc: Seq<(String, DynamicValue)>) -> Seq<
    Seq<char>,
>
    decreases doc.len(),
{
    if doc.len() == 0 {
        Seq::empty()
    } else {
        kept_idents(cols, doc.drop_last()) + (if cols.contains(doc.last().0@) {
            seq![ident_escaped(doc.last().0@)]
        } else {
            Seq::empty()
        })
    }
}

/// The encoded literals of the document fields that are known columns,
/// in document order.
pub open spec fn kept_values(cols: Seq<Seq<char>>, doc: Seq<(String, DynamicValue)>) -> Seq<
    Seq<char>,
>
    decreases doc.len(),
{
    if doc.len() == 0 {
        Seq::empty()
    } else {
        kept_values(cols, doc.drop_last()) + (if cols.contains(doc.last().0@) {
            seq![encoded(doc.last().1)]
        } else {
            Seq::empty()
        })
    }
}

/// The column list of an event's row: the fixed leading columns, then
/// the document's own known fields in document order.
pub open spec fn insert_columns(cols: Seq<Seq<char>>, e: ChangeEvent) -> Seq<Seq<char>> {
    seq!["operation_type"@, "collection"@] + kept_idents(cols, doc_fields(e))
}

/// The value list of an event's row, aligned with `insert_columns`.
pub open spec fn insert_values(cols: Seq<Seq<char>>, e: ChangeEvent) -> Seq<Seq<char>> {
    seq![literal_quoted(spec_op_label(e.operation)), literal_quoted(collection_label(e))]
        + kept_values(cols, doc_fields(e))
}

/// The single-row insert statement for an event.
pub open spec fn insert_text(cols: Seq<Seq<char>>, e: ChangeEvent) -> Seq<char> {
    "INSERT INTO mongodb_changes ("@ + comma_join(insert_columns(cols, e)) + ") VALUES ("@
        + comma_join(insert_values(cols, e)) + ")"@
}

/// Builds the row-insert statement for an event: the operation label
/// and collection as quoted literals, then each document field that is
/// a known column, escaped and encoded, in document order. A field
/// whose column could not be migrated is skipped rather than the whole
/// event dropped. An event without a document snapshot produces no
/// statement at all.
#[verifier::loop_isolation(false)]
pub fn build_insert(known: &KnownColumnSet, event: &ChangeEvent) -> (r: Option<String>)
    ensures
        r is Some <==> event.document is Some,
        r matches Some(s) ==> s@ == insert_text(known@, *event),
{
    match &event.document {
        None => None,
        Some(doc) => {
            let ghost cbase = seq!["operation_type"@, "collection"@];
            let mut cols_text = "operation_type".to_owned();
            cols_text.append(", ");
            cols_text.append("collection");
            proof {
                assert(cbase.drop_last() =~= seq!["operation_type"@]);
                assert(comma_join(seq!["operation_type"@]) == "operation_type"@);
                assert(comma_join(cbase) == comma_join(cbase.drop_last()) + ", "@
                    + "collection"@);
                assert(cols_text@ == comma_join(cbase));
            }
            let mut vals_text = quote_literal(op_label(event.operation));
            vals_text.append(", ");
            let coll_quoted = match &event.collection {
                Some(c) => quote_literal(c.as_str()),
                None => quote_literal("unknown"),
            };
            vals_text.append(coll_quoted.as_str());
            let ghost vbase = seq![
                literal_quoted(spec_op_label(event.operation)),
                literal_quoted(collection_label(*event)),
            ];
            proof {
                assert(vbase.drop_last() =~= seq![
                    literal_quoted(spec_op_label(event.operation)),
                ]);
                assert(comma_join(vbase.drop_last()) == literal_quoted(
                    spec_op_label(event.operation),
                ));
                assert(comma_join(vbase) == comma_join(vbase.drop_last()) + ", "@
                    + literal_quoted(collection_label(*event)));
                assert(vals_text@ == comma_join(vbase));
            }
            let n = doc.len();
            let mut i: usize = 0;
            proof {
                assert(doc@.take(0) =~= Seq::<(String, DynamicValue)>::empty());
                assert(cbase + kept_idents(known@, doc@.take(0)) =~= cbase);
                assert(vbase + kept_values(known@, doc@.take(0)) =~= vbase);
            }
            while i < n
                invariant
                    i <= n,
                    cols_text@ == comma_join(cbase + kept_idents(known@, doc@.take(i as int))),
                    vals_text@ == comma_join(vbase + kept_values(known@, doc@.take(i as int))),
                decreases n - i,
            {
                if known.contains_name(&doc[i].0) {
                    cols_text.append(", ");
                    let escaped = escape_column_name(doc[i].0.as_str());
                    cols_text.append(escaped.as_str());
                    vals_text.append(", ");
                    let lit = encode_value(&doc[i].1);
                    vals_text.append(lit.as_str());
                }
                proof {
                    let t = doc@.take(i + 1);
                    assert(t.drop_last() =~= doc@.take(i as int));
                    assert(t.last() == doc@[i as int]);
                    let ci = cbase + kept_idents(known@, t);
                    let vi = vbase + kept_values(known@, t);
                    if known@.contains(doc@[i as int].0@) {
                        assert(ci.drop_last() =~= cbase + kept_idents(
                            known@,
                            doc@.take(i as int),
                        ));
                        assert(ci.last() == ident_escaped(doc@[i as int].0@));
                        assert(comma_join(ci) == comma_join(ci.drop_last()) + ", "@ + ci.last());
                        assert(vi.drop_last() =~= vbase + kept_values(
                            known@,
                            doc@.take(i as int),
                        ));
                        assert(vi.last() == encoded(doc@[i as int].1));
                        assert(comma_join(vi) == comma_join(vi.drop_last()) + ", "@ + vi.last());
                    } else {
                        assert(ci =~= cbase + kept_idents(known@, doc@.take(i as int)));
                        assert(vi =~= vbase + kept_values(known@, doc@.take(i as int)));
                    }
                }
                i = i + 1;
            }
            proof {
                assert(doc@.take(n as int) =~= doc@);
            }
            let mut out = "INSERT INTO mongodb_changes (".to_owned();
            out.append(cols_text.as_str());
            out.append(") VALUES (");
            out.append(vals_text.as_str());
            out.append(")");
            proof {
                assert(out@ =~= insert_text(known@, *event));
            }
            Some(out)
        },
    }
}

/// The column set after one event: its novel fields migrated in.
pub open spec fn step_known(cols: Seq<Seq<char>>, e: ChangeEvent) -> Seq<Seq<char>> {
    add_all(cols, novel_of(cols, event_keys(e)))
}

/// The column set after a sequence of events, applied in emission
/// order.
pub open spec fn known_after(cols: Seq<Seq<char>>, events: Seq<ChangeEvent>) -> Seq<Seq<char>>
    decreases events.len(),
{
    if events.len() == 0 {
        cols
    } else {
        step_known(known_after(cols, events.drop_last()), events.last())
    }
}

/// The additive column statements for a batch of field names, in
/// order.
pub open spec fn ddl_texts(names: Seq<Seq<char>>) -> Seq<Seq<char>>
    decreases names.len(),
{
    if names.len() == 0 {
        Seq::empty()
    } else {
        ddl_texts(names.drop_last()).push(add_column_text(names.last()))
    }
}

/// The column statements a sequence of events gives rise to, in
/// emission order.
pub open spec fn ddl_after(cols: Seq<Seq<char>>, events: Seq<ChangeEvent>) -> Seq<Seq<char>>
    decreases events.len(),
{
    if events.len() == 0 {
        Seq::empty()
    } else {
        ddl_after(cols, events.drop_last()) + ddl_texts(
            novel_of(known_after(cols, events.drop_last()), event_keys(events.last())),
        )
    }
}

/// The row-insert statements a sequence of events gives rise to, in
/// emission order: one per event that carries a document, none for the
/// others, each built against the column set as evolved by the events
/// before it and its own migrations.
pub open spec fn inserts_after(cols: Seq<Seq<char>>, events: Seq<ChangeEvent>) -> Seq<Seq<char>>
    decreases events.len(),
{
    if events.len() == 0 {
        Seq::empty()
    } else {
        inserts_after(cols, events.drop_last()) + (if events.last().document is Some {
            seq![
                insert_text(
                    step_known(known_after(cols, events.drop_last()), events.last()),
                    events.last(),
                ),
            ]
        } else {
            Seq::empty()
        })
    }
}

/// The statements a batch of events gives rise to: the additive column
/// statements and the row inserts, each list in emission order. In the
/// live loop each column statement is executed before the insert of the
/// event that required it.
pub struct BatchPlan {
    pub ddl: Vec<String>,
    pub inserts: Vec<String>,
}

/// Processes a batch of events in emission order against the registry,
/// as the consumption loop does when every migration succeeds: for each
/// event, its novel fields are migrated into the registry and its row
/// insert is built against the grown column set.
#[verifier::loop_isolation(false)]
pub fn process_batch(known: &mut KnownColumnSet, events: &Vec<ChangeEvent>) -> (r: BatchPlan)
    requires
        old(known).wf(),
    ensures
        final(known).wf(),
        final(known)@ == known_after(old(known)@, events@),
        views_of(r.ddl@) == ddl_after(old(known)@, events@),
        views_of(r.inserts@) == inserts_after(old(known)@, events@),
{
    let mut ddl: Vec<String> = Vec::new();
    let mut inserts: Vec<String> = Vec::new();
    let n = events.len();
    let mut i: usize = 0;
    proof {
        assert(events@.take(0) =~= Seq::<ChangeEvent>::empty());
        assert(views_of(ddl@) =~= ddl_after(old(known)@, events@.take(0)));
        assert(views_of(inserts@) =~= inserts_after(old(known)@, events@.take(0)));
    }
    while i < n
        invariant
            i <= n,
            known.wf(),
            known@ == known_after(old(known)@, events@.take(i as int)),
            views_of(ddl@) == ddl_after(old(known)@, events@.take(i as int)),
            views_of(inserts@) == inserts_after(old(known)@, events@.take(i as int)),
        decreases n - i,
    {
        let ghost kb = known@;
        let ghost nv = novel_of(kb, event_keys(events@[i as int]));
        let steps = plan_migrations(known, &events[i]);
        let m = steps.len();
        let mut j: usize = 0;
        proof {
            assert(nv.take(0) =~= Seq::<Seq<char>>::empty());
            assert(known@ == add_all(kb, nv.take(0)));
            assert(ddl_texts(nv.take(0)) =~= Seq::<Seq<char>>::empty());
            assert(views_of(ddl@) =~= ddl_after(old(known)@, events@.take(i as int)) + ddl_texts(
                nv.take(0),
            ));
        }
        while j < m
            invariant
                j <= m,
                known.wf(),
                known@ == add_all(kb, nv.take(j as int)),
                views_of(ddl@) == ddl_after(old(known)@, events@.take(i as int)) + ddl_texts(
                    nv.take(j as int),
                ),
            decreases m - j,
        {
            known.record_migrated(steps[j].field.clone());
            let ghost dprev = ddl@;
            ddl.push(steps[j].statement.clone());
            proof {
                assert(ddl@.last()@ == steps@[j as int].statement@);
                assert(views_of(ddl@) =~= views_of(dprev).push(steps@[j as int].statement@));
                let t = nv.take(j + 1);
                assert(t.drop_last() =~= nv.take(j as int));
                assert(t.last() == nv[j as int]);
                assert(steps@[j as int].field@ == nv[j as int]);
                assert(steps@[j as int].statement@ == add_column_text(nv[j as int]));
                assert(known@ == add_all(kb, t));
                assert(ddl_texts(t) == ddl_texts(nv.take(j as int)).push(
                    add_column_text(nv[j as int]),
                ));
                assert(views_of(ddl@) =~= ddl_after(old(known)@, events@.take(i as int))
                    + ddl_texts(t));
            }
            j = j + 1;
        }
        proof {
            assert(nv.take(m as int) =~= nv);
            assert(known@ == step_known(kb, events@[i as int]));
        }
        match build_insert(known, &events[i]) {
            Some(s) => inserts.push(s),
            None => {},
        }
        proof {
            let t = events@.take(i + 1);
            assert(t.drop_last() =~= events@.take(i as int));
            assert(t.last() == events@[i as int]);
            assert(known@ == known_after(old(known)@, t));
            assert(views_of(ddl@) =~= ddl_after(old(known)@, t));
            assert(views_of(inserts@) =~= inserts_after(old(known)@, t));
        }
        i = i + 1;
    }
    proof {
        assert(events@.take(n as int) =~= events@);
    }
    BatchPlan { ddl, inserts }
}

/// Law (ordering preservation): a batch of events that all carry
/// documents produces exactly one row insert per event, in emission
/// order — the insert at position `i` is the one built from event `i`
/// against the column set as evolved by the events before it. Applied
/// in this order, the destination reflects each field's values in
/// emission order.
pub proof fn lemma_inserts_in_emission_order(cols: Seq<Seq<char>>, events: Seq<ChangeEvent>)
    requires
        forall|i: int| 0 <= i < events.len() ==> (#[trigger] events[i]).document is Some,
    ensures
        inserts_after(cols, events).len() == events.len(),
        forall|i: int|
            0 <= i < events.len() ==> #[trigger] inserts_after(cols, events)[i] == insert_text(
                step_known(known_after(cols, events.take(i)), events[i]),
                events[i],
            ),
    decreases events.len(),
{
    if events.len() > 0 {
        let p = events.drop_last();
        assert forall|i: int| 0 <= i < p.len() implies (#[trigger] p[i]).document is Some by {
            assert(p[i] == events[i]);
        }
        lemma_inserts_in_emission_order(cols, p);
        let whole = inserts_after(cols, events);
        let last = events.last();
        assert(events[events.len() - 1].document is Some);
        assert(whole == inserts_after(cols, p) + seq![
            insert_text(step_known(known_after(cols, p), last), last),
        ]);
        assert forall|i: int| 0 <= i < events.len() implies #[trigger] whole[i] == insert_text(
            step_known(known_after(cols, events.take(i)), events[i]),
            events[i],
        ) by {
            if i < p.len() {
                assert(whole[i] == inserts_after(cols, p)[i]);
                assert(p.take(i) =~= events.take(i));
                assert(p[i] == events[i]);
            } else {
                assert(i == events.len() - 1);
                assert(whole[i] == insert_text(step_known(known_after(cols, p), last), last));
                assert(p =~= events.take(i));
            }
        }
    }
}

} // verus!
