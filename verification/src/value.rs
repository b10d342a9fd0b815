//! Dynamic values observed in source documents, and their encoding into
//! sink-safe textual literals.

use vstd::prelude::*;
use crate::text::{dec_int, literal_quoted, i64_to_decimal, quote_literal};

verus! {

/// A dynamically typed value of a source document: a tagged union over
/// every representation the change feed can deliver.
///
/// Values that the verified core cannot compute with directly are held
/// in their canonical textual form, produced at the process edge:
/// `Double` holds the default decimal rendering of the floating-point
/// number, `ObjectId` the hexadecimal form of the source's native
/// object identifier, and `Timestamp` the canonical textual form of the
/// instant.
pub enum DynamicValue {
    Null,
    Boolean(bool),
    Int32(i32),
    Int64(i64),
    Double(String),
    Text(String),
    ObjectId(String),
    Timestamp(String),
    Array(Vec<DynamicValue>),
    Document(Vec<(String, DynamicValue)>),
}

/// One character of the serialized form of a nested value: double
/// quotes and backslashes gain a backslash prefix.
pub open spec fn json_esc_char(c: char) -> Seq<char> {
    if c == '"' || c == '\\' {
        seq!['\\', c]
    } else {
        seq![c]
    }
}

/// A string with every double quote and backslash backslash-escaped,
/// for use inside a serialized nested value.
pub open spec fn json_escaped(s: Seq<char>) -> Seq<char>
    decreases s.len(),
{
    if s.len() == 0 {
        Seq::empty()
    } else {
        json_escaped(s.drop_last()) + json_esc_char(s.last())
    }
}

/// The canonical serialized text form of a nested value.
pub open spec fn json_of(v: DynamicValue) -> Seq<char>
    decreases v,
{
    match v {
        DynamicValue::Null => "null"@,
        DynamicValue::Boolean(b) => if b {
            "true"@
        } else {
            "false"@
        },
        DynamicValue::Int32(i) => dec_int(i as int),
        DynamicValue::Int64(i) => dec_int(i as int),
        DynamicValue::Double(s) => s@,
        DynamicValue::Text(s) => seq!['"'] + json_escaped(s@) + seq!['"'],
        DynamicValue::ObjectId(s) => seq!['"'] + json_escaped(s@) + seq!['"'],
        DynamicValue::Timestamp(s) => seq!['"'] + json_escaped(s@) + seq!['"'],
        DynamicValue::Array(items) => seq!['['] + json_items(items@) + seq![']'],
        DynamicValue::Document(fields) => seq!['{'] + json_fields(fields@) + seq!['}'],
    }
}

/// The elements of a serialized array, comma-separated.
pub open spec fn json_items(items: Seq<DynamicValue>) -> Seq<char>
    decreases items,
{
    if items.len() == 0 {
        Seq::empty()
    } else if items.len() == 1 {
        json_of(items[0])
    } else {
        json_items(items.drop_last()) + seq![','] + json_of(items.last())
    }
}

/// The members of a serialized document, comma-separated.
pub open spec fn json_fields(fields: Seq<(String, DynamicValue)>) -> Seq<char>
    decreases fields,
{
    if fields.len() == 0 {
        Seq::empty()
    } else if fields.len() == 1 {
        json_field(fields[0])
    } else {
        json_fields(fields.drop_last()) + seq![','] + json_field(fields.last())
    }
}

/// One member of a serialized document: quoted key, colon, value.
pub open spec fn json_field(f: (String, DynamicValue)) -> Seq<char>
    decreases f,
{
    seq!['"'] + json_escaped(f.0@) + seq!['"', ':'] + json_of(f.1)
}

/// The sink-safe literal form of a value, by variant: the sink's null
/// literal for null, `1`/`0` for booleans, bare decimal text for
/// numbers, and a quoted-and-escaped string for everything else —
/// nested arrays and documents are serialized first and the whole blob
/// quoted.
pub open spec fn encoded(v: DynamicValue) -> Seq<char> {
    match v {
        DynamicValue::Null => "NULL"@,
        DynamicValue::Boolean(b) => if b {
            "1"@
        } else {
            "0"@
        },
        DynamicValue::Int32(i) => dec_int(i as int),
        DynamicValue::Int64(i) => dec_int(i as int),
        DynamicValue::Double(s) => s@,
        DynamicValue::Text(s) => literal_quoted(s@),
        DynamicValue::ObjectId(s) => literal_quoted(s@),
        DynamicValue::Timestamp(s) => literal_quoted(s@),
        DynamicValue::Array(_) => literal_quoted(json_of(v)),
        DynamicValue::Document(_) => literal_quoted(json_of(v)),
    }
}

/// Appends `json_escaped(s@)` to `out`.
fn append_json_escaped(out: &mut String, s: &str)
    ensures
        final(out)@ == old(out)@ + json_escaped(s@),
{
    let n = s.unicode_len();
    let mut i: usize = 0;
    while i < n
        invariant
            n == s@.len(),
            i <= n,
            out@ == old(out)@ + json_escaped(s@.take(i as int)),
        decreases n - i,
    {
        let c = s.get_char(i);
        if c == '"' || c == '\\' {
            crate::text::push_char(out, '\\');
        }
        crate::text::push_char(out, c);
        proof {
            assert(s@.take(i + 1).drop_last() =~= s@.take(i as int));
            assert(s@.take(i + 1).last() == s@[i as int]);
        }
        i = i + 1;
    }
    proof {
        assert(s@.take(n as int) =~= s@);
    }
}

/// Appends the quoted, escaped serialized form of a string to `out`.
fn append_json_string(out: &mut String, s: &str)
    ensures
        final(out)@ == old(out)@ + seq!['"'] + json_escaped(s@) + seq!['"'],
{
    crate::text::push_char(out, '"');
    append_json_escaped(out, s);
    crate::text::push_char(out, '"');
}

/// Renders the canonical serialized text form of a value.
#[verifier::loop_isolation(false)]
pub fn json_render(v: &DynamicValue) -> (r: String)
    ensures
        r@ == json_of(*v),
    decreases *v,
{
    match v {
        DynamicValue::Null => "null".to_owned(),
        DynamicValue::Boolean(b) => if *b {
            "true".to_owned()
        } else {
            "false".to_owned()
        },
        DynamicValue::Int32(i) => i64_to_decimal(*i as i64),
        DynamicValue::Int64(i) => i64_to_decimal(*i),
        DynamicValue::Double(s) => s.clone(),
        DynamicValue::Text(s) => {
            let mut out = String::new();
            append_json_string(&mut out, s.as_str());
            proof {
                assert(out@ =~= json_of(*v));
            }
            out
        },
        DynamicValue::ObjectId(s) => {
            let mut out = String::new();
            append_json_string(&mut out, s.as_str());
            proof {
                assert(out@ =~= json_of(*v));
            }
            out
        },
        DynamicValue::Timestamp(s) => {
            let mut out = String::new();
            append_json_string(&mut out, s.as_str());
            proof {
                assert(out@ =~= json_of(*v));
            }
            out
        },
        DynamicValue::Array(items) => {
            let mut out = "[".to_owned();
            proof {
                reveal_strlit("[");
                assert(out@ =~= seq!['['] + json_items(items@.take(0)));
            }
            let n = items.len();
            let mut i: usize = 0;
            while i < n
                invariant
                    n == items@.len(),
                    i <= n,
                    out@ == seq!['['] + json_items(items@.take(i as int)),
                decreases n - i,
            {
                if i > 0 {
                    crate::text::push_char(&mut out, ',');
                }
                proof {
                    assert(decreases_to!(*v => v->Array_0));
                    assert(v->Array_0 == *items);
                    assert(decreases_to!(*items => items@[i as int]));
                    assert(decreases_to!(*v => items@[i as int]));
                }
                let piece = json_render(&items[i]);
                out.append(piece.as_str());
                proof {
                    let t = items@.take(i + 1);
                    assert(t.drop_last() =~= items@.take(i as int));
                    assert(t.last() == items@[i as int]);
                    if i == 0 {
                        assert(t.len() == 1);
                        assert(t[0] == items@[0]);
                        assert(out@ =~= seq!['['] + json_items(t));
                    } else {
                        assert(out@ =~= seq!['['] + json_items(t));
                    }
                }
                i = i + 1;
            }
            crate::text::push_char(&mut out, ']');
            proof {
                assert(items@.take(n as int) =~= items@);
                assert(out@ =~= json_of(*v));
            }
            out
        },
        DynamicValue::Document(fields) => {
            let mut out = "{".to_owned();
            proof {
                reveal_strlit("{");
                assert(out@ =~= seq!['{'] + json_fields(fields@.take(0)));
            }
            let n = fields.len();
            let mut i: usize = 0;
            while i < n
                invariant
                    n == fields@.len(),
                    i <= n,
                    out@ == seq!['{'] + json_fields(fields@.take(i as int)),
                decreases n - i,
            {
                if i > 0 {
                    crate::text::push_char(&mut out, ',');
                }
                append_json_string(&mut out, fields[i].0.as_str());
                crate::text::push_char(&mut out, ':');
                proof {
                    assert(decreases_to!(*v => v->Document_0));
                    assert(v->Document_0 == *fields);
                    assert(decreases_to!(*fields => fields@[i as int]));
                    assert(decreases_to!(fields@[i as int] => fields@[i as int].1));
                    assert(decreases_to!(*v => fields@[i as int].1));
                }
                let piece = json_render(&fields[i].1);
                out.append(piece.as_str());
                proof {
                    let t = fields@.take(i + 1);
                    assert(t.drop_last() =~= fields@.take(i as int));
                    assert(t.last() == fields@[i as int]);
                    assert(json_field(t.last()) == seq!['"'] + json_escaped(t.last().0@) + seq![
                        '"',
                        ':',
                    ] + json_of(t.last().1)) by {
                        reveal_with_fuel(json_field, 2);
                    }
                    if i == 0 {
                        assert(t.len() == 1);
                        assert(t[0] == fields@[0]);
                        assert(out@ =~= seq!['{'] + json_fields(t));
                    } else {
                        assert(out@ =~= seq!['{'] + json_fields(t));
                    }
                }
                i = i + 1;
            }
            crate::text::push_char(&mut out, '}');
            proof {
                assert(fields@.take(n as int) =~= fields@);
                assert(out@ =~= json_of(*v));
            }
            out
        },
    }
}

/// Encodes a value as a sink-safe literal.
pub fn encode_value(v: &DynamicValue) -> (r: String)
    ensures
        r@ == encoded(*v),
{
    match v {
        DynamicValue::Null => "NULL".to_owned(),
        DynamicValue::Boolean(b) => if *b {
            "1".to_owned()
        } else {
            "0".to_owned()
        },
        DynamicValue::Int32(i) => i64_to_decimal(*i as i64),
        DynamicValue::Int64(i) => i64_to_decimal(*i),
        DynamicValue::Double(s) => s.clone(),
        DynamicValue::Text(s) => quote_literal(s.as_str()),
        DynamicValue::ObjectId(s) => quote_literal(s.as_str()),
        DynamicValue::Timestamp(s) => quote_literal(s.as_str()),
        DynamicValue::Array(_) => {
            let blob = json_render(v);
            quote_literal(blob.as_str())
        },
        DynamicValue::Document(_) => {
            let blob = json_render(v);
            quote_literal(blob.as_str())
        },
    }
}

/// Law (encoding totality): the literal form of every finite value is
/// non-empty; together with the termination of `encode_value` on every
/// finite value this makes the encoder total. The one hypothesis is
/// that a floating-point value carries a non-empty rendering, which the
/// default decimal rendering always is.
pub proof fn lemma_encoded_nonempty(v: DynamicValue)
    requires
        v matches DynamicValue::Double(s) ==> s@.len() > 0,
    ensures
        encoded(v).len() > 0,
{
    reveal_strlit("NULL");
    reveal_strlit("1");
    reveal_strlit("0");
    match v {
        DynamicValue::Int32(i) => {
            assert(dec_int(i as int).len() > 0);
        },
        DynamicValue::Int64(i) => {
            assert(dec_int(i as int).len() > 0);
        },
        DynamicValue::Double(s) => {
            assert(encoded(v).len() > 0);
        },
        _ => {},
    }
}

} // verus!
