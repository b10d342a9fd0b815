//! Escaping of identifiers and of string literals for generated statements.

use vstd::prelude::*;
use vstd::string::StrSliceExecFns;

verus! {

/// A character that may stand unquoted in a column identifier:
/// ASCII letters, digits, and the underscore.
pub open spec fn is_ident_char(c: char) -> bool {
    (('a' as u32) <= (c as u32) && (c as u32) <= ('z' as u32))
        || (('A' as u32) <= (c as u32) && (c as u32) <= ('Z' as u32))
        || (('0' as u32) <= (c as u32) && (c as u32) <= ('9' as u32))
        || c == '_'
}

/// A name must be quoted when any of its characters falls outside the
/// identifier alphabet (this covers spaces, hyphens and dots).
pub open spec fn needs_quoting(s: Seq<char>) -> bool {
    exists|i: int| 0 <= i < s.len() && !is_ident_char(s[i])
}

/// One escaped character: the special character gains a backslash prefix.
pub open spec fn esc_char(c: char, special: char) -> Seq<char> {
    if c == special {
        seq!['\\', c]
    } else {
        seq![c]
    }
}

/// The sequence with every occurrence of `special` backslash-escaped.
pub open spec fn escaped_with(s: Seq<char>, special: char) -> Seq<char>
    decreases s.len(),
{
    if s.len() == 0 {
        Seq::empty()
    } else {
        escaped_with(s.drop_last(), special) + esc_char(s.last(), special)
    }
}

/// The escaped identifier form of a raw field name: unchanged when every
/// character is in the identifier alphabet, else wrapped in backticks
/// with embedded backticks escaped.
pub open spec fn ident_escaped(s: Seq<char>) -> Seq<char> {
    if needs_quoting(s) {
        seq!['`'] + escaped_with(s, '`') + seq!['`']
    } else {
        s
    }
}

/// The single-quoted literal form of a string value: wrapped in single
/// quotes, with embedded single quotes backslash-escaped.
pub open spec fn literal_quoted(s: Seq<char>) -> Seq<char> {
    seq!['\''] + escaped_with(s, '\'') + seq!['\'']
}

/// The decimal digit character for `d` (which must be below ten).
pub open spec fn dec_digit(d: nat) -> char {
    if d == 0 {
        '0'
    } else if d == 1 {
        '1'
    } else if d == 2 {
        '2'
    } else if d == 3 {
        '3'
    } else if d == 4 {
        '4'
    } else if d == 5 {
        '5'
    } else if d == 6 {
        '6'
    } else if d == 7 {
        '7'
    } else if d == 8 {
        '8'
    } else {
        '9'
    }
}

/// The decimal representation of a natural number, without sign or
/// leading zeros.
pub open spec fn dec_rep(n: nat) -> Seq<char>
    decreases n,
{
    if n < 10 {
        seq![dec_digit(n)]
    } else {
        dec_rep(n / 10) + seq![dec_digit(n % 10)]
    }
}

/// The decimal representation of an integer: a minus sign ahead of the
/// magnitude when negative.
pub open spec fn dec_int(i: int) -> Seq<char> {
    if i >= 0 {
        dec_rep(i as nat)
    } else {
        seq!['-'] + dec_rep((-i) as nat)
    }
}

/// The parts joined with a comma-and-space separator.
pub open spec fn comma_join(parts: Seq<Seq<char>>) -> Seq<char>
    decreases parts.len(),
{
    if parts.len() == 0 {
        Seq::empty()
    } else if parts.len() == 1 {
        parts[0]
    } else {
        comma_join(parts.drop_last()) + ", "@ + parts.last()
    }
}

/// The views of a sequence of strings.
pub open spec fn views_of(ss: Seq<String>) -> Seq<Seq<char>> {
    ss.map_values(|s: String| s@)
}

/// Relies on std's `String::push`: appends the given character to the
/// end of the string.
#[verifier::external_body]
pub(crate) fn push_char(s: &mut String, c: char)
    ensures
        final(s)@ == old(s)@.push(c),
{
    s.push(c);
}

fn exec_is_ident_char(c: char) -> (r: bool)
    ensures
        r == is_ident_char(c),
{
    (('a' as u32) <= (c as u32) && (c as u32) <= ('z' as u32))
        || (('A' as u32) <= (c as u32) && (c as u32) <= ('Z' as u32))
        || (('0' as u32) <= (c as u32) && (c as u32) <= ('9' as u32))
        || c == '_'
}

/// Appends `escaped_with(s, special)` to `out`.
fn append_escaped(out: &mut String, s: &str, special: char)
    ensures
        final(out)@ == old(out)@ + escaped_with(s@, special),
{
    let n = s.unicode_len();
    let mut i: usize = 0;
    while i < n
        invariant
            n == s@.len(),
            i <= n,
            out@ == old(out)@ + escaped_with(s@.take(i as int), special),
        decreases n - i,
    {
        let c = s.get_char(i);
        if c == special {
            push_char(out, '\\');
        }
        push_char(out, c);
        proof {
            assert(s@.take(i + 1).drop_last() =~= s@.take(i as int));
            assert(s@.take(i + 1).last() == s@[i as int]);
        }
        i = i + 1;
    }
    proof {
        assert(s@.take(n as int) =~= s@);
    }
}

/// Escapes a raw field name for use as a column identifier in generated
/// statements: names made only of ASCII letters, digits and underscores
/// pass through unchanged; any other name is wrapped in backticks, with
/// embedded backticks backslash-escaped.
pub fn escape_column_name(name: &str) -> (r: String)
    ensures
        r@ == ident_escaped(name@),
{
    let n = name.unicode_len();
    let mut quote = false;
    let mut i: usize = 0;
    while i < n
        invariant
            n == name@.len(),
            i <= n,
            quote == needs_quoting(name@.take(i as int)),
        decreases n - i,
    {
        let c = name.get_char(i);
        if !exec_is_ident_char(c) {
            quote = true;
        }
        proof {
            let t = name@.take(i + 1);
            if quote {
                if !is_ident_char(c) {
                    assert(t[i as int] == c);
                    assert(needs_quoting(t));
                } else {
                    let j = choose|j: int| 0 <= j < i && !is_ident_char(name@.take(i as int)[j]);
                    assert(t[j] == name@[j]);
                    assert(needs_quoting(t));
                }
            } else {
                assert forall|j: int| 0 <= j < t.len() implies is_ident_char(t[j]) by {
                    if j < i {
                        assert(name@.take(i as int)[j] == t[j]);
                    }
                }
            }
        }
        i = i + 1;
    }
    proof {
        assert(name@.take(n as int) =~= name@);
    }
    if quote {
        let mut out = String::new();
        push_char(&mut out, '`');
        append_escaped(&mut out, name, '`');
        push_char(&mut out, '`');
        proof {
            assert(out@ =~= seq!['`'] + escaped_with(name@, '`') + seq!['`']);
        }
        out
    } else {
        name.to_owned()
    }
}

/// Quotes a string value as a statement literal, escaping embedded
/// single quotes.
pub fn quote_literal(s: &str) -> (r: String)
    ensures
        r@ == literal_quoted(s@),
{
    let mut out = String::new();
    push_char(&mut out, '\'');
    append_escaped(&mut out, s, '\'');
    push_char(&mut out, '\'');
    proof {
        assert(out@ =~= literal_quoted(s@));
    }
    out
}

fn exec_dec_digit(d: u64) -> (r: char)
    requires
        d < 10,
    ensures
        r == dec_digit(d as nat),
{
    if d == 0 {
        '0'
    } else if d == 1 {
        '1'
    } else if d == 2 {
        '2'
    } else if d == 3 {
        '3'
    } else if d == 4 {
        '4'
    } else if d == 5 {
        '5'
    } else if d == 6 {
        '6'
    } else if d == 7 {
        '7'
    } else if d == 8 {
        '8'
    } else {
        '9'
    }
}

/// Renders an unsigned number in decimal.
pub fn u64_to_decimal(n: u64) -> (r: String)
    ensures
        r@ == dec_rep(n as nat),
    decreases n,
{
    if n < 10 {
        let mut out = String::new();
        push_char(&mut out, exec_dec_digit(n));
        proof {
            assert(out@ =~= seq![dec_digit(n as nat)]);
        }
        out
    } else {
        let mut out = u64_to_decimal(n / 10);
        push_char(&mut out, exec_dec_digit(n % 10));
        proof {
            assert(out@ =~= dec_rep((n / 10) as nat) + seq![dec_digit((n % 10) as nat)]);
        }
        out
    }
}

/// Renders a signed number in decimal.
pub fn i64_to_decimal(i: i64) -> (r: String)
    ensures
        r@ == dec_int(i as int),
{
    if i >= 0 {
        u64_to_decimal(i as u64)
    } else {
        let wide: i128 = -(i as i128);
        proof {
            assert(1 <= wide <= 0x8000_0000_0000_0000i128);
        }
        let mag: u64 = wide as u64;
        let mut out = String::new();
        push_char(&mut out, '-');
        let digits = u64_to_decimal(mag);
        out.append(digits.as_str());
        proof {
            assert(out@ =~= dec_int(i as int));
        }
        out
    }
}

/// Law: escaping introduces a backslash ahead of every occurrence of
/// the special character, so no occurrence in the escaped text stands
/// unescaped (stated for a special character other than the backslash
/// itself).
pub proof fn lemma_escaped_covered(s: Seq<char>, special: char)
    requires
        special != '\\',
    ensures
        forall|i: int|
            0 <= i < escaped_with(s, special).len() && #[trigger] escaped_with(s, special)[i]
                == special ==> i > 0 && escaped_with(s, special)[i - 1] == '\\',
    decreases s.len(),
{
    if s.len() > 0 {
        lemma_escaped_covered(s.drop_last(), special);
        let e = escaped_with(s, special);
        let ep = escaped_with(s.drop_last(), special);
        let tail = esc_char(s.last(), special);
        assert forall|i: int| 0 <= i < e.len() && #[trigger] e[i] == special implies i > 0 && e[i
            - 1] == '\\' by {
            if i < ep.len() {
                assert(e[i] == ep[i]);
                assert(e[i - 1] == ep[i - 1]);
            } else {
                if s.last() == special {
                    assert(e[ep.len() as int] == '\\');
                    assert(i == ep.len() + 1);
                    assert(e[i - 1] == '\\');
                } else {
                    assert(e[i] == s.last());
                }
            }
        }
    }
}

/// Law (literal-injection safety): the quoted literal form of any
/// string begins and ends with a single quote, and every single quote
/// between them is immediately preceded by a backslash — an embedded
/// quote cannot terminate the literal early.
pub proof fn lemma_literal_injection_safe(s: Seq<char>)
    ensures
        literal_quoted(s).len() >= 2,
        literal_quoted(s)[0] == '\'',
        literal_quoted(s).last() == '\'',
        forall|i: int|
            0 < i < literal_quoted(s).len() - 1 && #[trigger] literal_quoted(s)[i] == '\''
                ==> literal_quoted(s)[i - 1] == '\\',
{
    lemma_escaped_covered(s, '\'');
    let l = literal_quoted(s);
    let e = escaped_with(s, '\'');
    assert forall|i: int| 0 < i < l.len() - 1 && #[trigger] l[i] == '\'' implies l[i - 1]
        == '\\' by {
        assert(l[i] == e[i - 1]);
        if i > 1 {
            assert(l[i - 1] == e[i - 2]);
        }
    }
}

/// Law (identifier escaping): a name made only of identifier characters
/// passes through unchanged; any other name comes back wrapped in
/// backticks with every embedded backtick backslash-escaped, so the
/// quoted form reads as a single identifier.
pub proof fn lemma_identifier_escaping_safe(s: Seq<char>)
    ensures
        !needs_quoting(s) ==> ident_escaped(s) == s,
        needs_quoting(s) ==> {
            let e = ident_escaped(s);
            &&& e.len() >= 2
            &&& e[0] == '`'
            &&& e.last() == '`'
            &&& forall|i: int| 0 < i < e.len() - 1 && #[trigger] e[i] == '`' ==> e[i - 1] == '\\'
        },
{
    if needs_quoting(s) {
        lemma_escaped_covered(s, '`');
        let l = ident_escaped(s);
        let e = escaped_with(s, '`');
        assert forall|i: int| 0 < i < l.len() - 1 && #[trigger] l[i] == '`' implies l[i - 1]
            == '\\' by {
            assert(l[i] == e[i - 1]);
            if i > 1 {
                assert(l[i - 1] == e[i - 2]);
            }
        }
    }
}

} // verus!
