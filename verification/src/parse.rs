//! A JSON text parser for the wire codec.
//!
//! The grammar is the one the envelope schema uses: objects, arrays,
//! strings, unsigned integer numbers, booleans and null, separated by
//! optional whitespace.  Anything else — signs, fractions, exponents,
//! numbers over the `u64` range, or unicode escapes beyond ASCII — is a
//! decode failure, which the runtime treats as fatal.
//!
//! The parser is contracted in both directions: the canonical text of
//! any value parses back to exactly that value, and whatever text it
//! accepts is, by the `renders` relations below, a spelling of the
//! value it returns.

use vstd::prelude::*;

use crate::json::{
    arr_text, esc_char, field_views_of, json_text, obj_text, str_body_text, str_text, views_of,
    Json, JsonV,
};
use crate::text::{dec_digit_value, dec_spec, dec_value, is_dec_digit, lemma_dec_spec_value};

verus! {


/// Whether `c` is a hexadecimal digit character the parser accepts.
pub open spec fn is_hex_char(c: char) -> bool {
    is_dec_digit(c) || c == 'a' || c == 'b' || c == 'c' || c == 'd' || c == 'e' || c == 'f' || c
        == 'A' || c == 'B' || c == 'C' || c == 'D' || c == 'E' || c == 'F'
}

/// The value of an accepted hexadecimal digit character.
pub open spec fn hex_char_value(c: char) -> int {
    if is_dec_digit(c) {
        dec_digit_value(c)
    } else if c == 'a' || c == 'A' {
        10
    } else if c == 'b' || c == 'B' {
        11
    } else if c == 'c' || c == 'C' {
        12
    } else if c == 'd' || c == 'D' {
        13
    } else if c == 'e' || c == 'E' {
        14
    } else {
        15
    }
}

/// Whether `s[lo..hi)` is insignificant whitespace only.
pub open spec fn ws_at(s: Seq<char>, lo: int, hi: int) -> bool {
    forall|k: int| lo <= k < hi ==> is_json_ws(#[trigger] s[k])
}

/// Whether `s[lo..hi)` is one accepted spelling of the character `c`
/// inside a string literal: the character itself, one of the two-byte
/// escapes, or an ASCII `\u` escape.
pub open spec fn renders_char_at(s: Seq<char>, lo: int, hi: int, c: char) -> bool {
    ||| (hi == lo + 1 && s[lo] == c && c != '"' && c != '\\')
    ||| (hi == lo + 2 && s[lo] == '\\' && s[lo + 1] == '"' && c == '"')
    ||| (hi == lo + 2 && s[lo] == '\\' && s[lo + 1] == '\\' && c == '\\')
    ||| (hi == lo + 2 && s[lo] == '\\' && s[lo + 1] == '/' && c == '/')
    ||| (hi == lo + 2 && s[lo] == '\\' && s[lo + 1] == 'n' && c == '\n')
    ||| (hi == lo + 2 && s[lo] == '\\' && s[lo + 1] == 'r' && c == '\r')
    ||| (hi == lo + 2 && s[lo] == '\\' && s[lo + 1] == 't' && c == '\t')
    ||| (hi == lo + 2 && s[lo] == '\\' && s[lo + 1] == 'b' && c == '\u{8}')
    ||| (hi == lo + 2 && s[lo] == '\\' && s[lo + 1] == 'f' && c == '\u{c}')
    ||| (hi == lo + 6 && s[lo] == '\\' && s[lo + 1] == 'u' && is_hex_char(s[lo + 2])
        && is_hex_char(s[lo + 3]) && is_hex_char(s[lo + 4]) && is_hex_char(s[lo + 5]) && ((
    hex_char_value(s[lo + 2]) * 16 + hex_char_value(s[lo + 3])) * 16 + hex_char_value(s[lo + 4]))
        * 16 + hex_char_value(s[lo + 5]) == c as u32 && (c as u32) < 0x80)
}

/// Whether `s[lo..hi)` spells the body of the string `t`.
pub open spec fn renders_body_at(s: Seq<char>, lo: int, hi: int, t: Seq<char>) -> bool
    decreases t.len(),
{
    if t.len() == 0 {
        lo == hi
    } else {
        exists|m: int|
            lo < m <= hi && #[trigger] renders_char_at(s, lo, m, t[0]) && renders_body_at(
                s,
                m,
                hi,
                t.drop_first(),
            )
    }
}

/// Marks a value's span and shape; holds always and serves only to
/// steer quantifier instantiation.
pub open spec fn value_span(j: JsonV, a: int, b: int) -> bool {
    true
}

/// Marks the split positions an element rendering picks; holds always
/// and serves only to steer quantifier instantiation.
pub open spec fn elem_split(a: int, b: int, c: int) -> bool {
    true
}

/// Marks the split positions a field rendering picks; holds always and
/// serves only to steer quantifier instantiation.
pub open spec fn field_split(a: int, kb: int, c: int, d: int, b: int, e: int) -> bool {
    true
}

/// Whether `s[lo..hi)` spells the string `t` as a quoted literal.
pub open spec fn renders_string_at(s: Seq<char>, lo: int, hi: int, t: Seq<char>) -> bool {
    lo + 2 <= hi && s[lo] == '"' && s[hi - 1] == '"' && renders_body_at(s, lo + 1, hi - 1, t)
}

/// Whether `s[lo..hi)` is text the parser reads as the value `j`:
/// the soundness side of the accepted grammar.
pub open spec fn renders_value_at(s: Seq<char>, lo: int, hi: int, j: JsonV) -> bool
    decreases j, 0int,
{
    match j {
        JsonV::Null => hi == lo + 4 && s[lo] == 'n' && s[lo + 1] == 'u' && s[lo + 2] == 'l' && s[lo
            + 3] == 'l',
        JsonV::Bool(b) => if b {
            hi == lo + 4 && s[lo] == 't' && s[lo + 1] == 'r' && s[lo + 2] == 'u' && s[lo + 3] == 'e'
        } else {
            hi == lo + 5 && s[lo] == 'f' && s[lo + 1] == 'a' && s[lo + 2] == 'l' && s[lo + 3] == 's'
                && s[lo + 4] == 'e'
        },
        JsonV::Num(v) => lo < hi <= s.len() && (forall|k: int|
            lo <= k < hi ==> is_dec_digit(#[trigger] s[k])) && dec_value(s.subrange(lo, hi))
            == v as nat,
        JsonV::Str(t) => renders_string_at(s, lo, hi, t),
        JsonV::Arr(items) => lo + 2 <= hi && s[lo] == '[' && s[hi - 1] == ']' && renders_elems_at(
            s,
            lo + 1,
            hi - 1,
            items,
        ),
        JsonV::Obj(fields) => lo + 2 <= hi && s[lo] == '{' && s[hi - 1] == '}' && renders_fields_at(
            s,
            lo + 1,
            hi - 1,
            fields,
        ),
    }
}

/// Whether `s[lo..hi)` spells the elements of an array, commas and
/// whitespace included.
pub open spec fn renders_elems_at(s: Seq<char>, lo: int, hi: int, items: Seq<JsonV>) -> bool
    decreases items, 1int,
{
    if items.len() == 0 {
        ws_at(s, lo, hi)
    } else if items.len() == 1 {
        exists|a: int, b: int|
            #![trigger elem_split(a, b, b)]
            lo <= a <= b <= hi && ws_at(s, lo, a) && renders_value_at(s, a, b, items[0]) && ws_at(
                s,
                b,
                hi,
            )
    } else {
        exists|a: int, b: int, c: int|
            #![trigger elem_split(a, b, c)]
            lo <= a <= b <= c < hi && ws_at(s, lo, a) && renders_value_at(s, a, b, items[0])
                && ws_at(s, b, c) && s[c] == ',' && renders_elems_at(
                s,
                c + 1,
                hi,
                items.drop_first(),
            )
    }
}

/// Whether `s[lo..hi)` spells the fields of an object, keys, colons,
/// commas and whitespace included.
pub open spec fn renders_fields_at(
    s: Seq<char>,
    lo: int,
    hi: int,
    fields: Seq<(Seq<char>, JsonV)>,
) -> bool
    decreases fields, 1int,
{
    if fields.len() == 0 {
        ws_at(s, lo, hi)
    } else if fields.len() == 1 {
        exists|a: int, kb: int, c: int, d: int, b: int|
            #![trigger field_split(a, kb, c, d, b, b)]
            lo <= a <= kb <= c < d <= b <= hi && ws_at(s, lo, a) && renders_string_at(
                s,
                a,
                kb,
                fields[0].0,
            ) && ws_at(s, kb, c) && s[c] == ':' && ws_at(s, c + 1, d) && renders_value_at(
                s,
                d,
                b,
                fields[0].1,
            ) && ws_at(s, b, hi)
    } else {
        exists|a: int, kb: int, c: int, d: int, b: int, e: int|
            #![trigger field_split(a, kb, c, d, b, e)]
            lo <= a <= kb <= c < d <= b <= e < hi && ws_at(s, lo, a) && renders_string_at(
                s,
                a,
                kb,
                fields[0].0,
            ) && ws_at(s, kb, c) && s[c] == ':' && ws_at(s, c + 1, d) && renders_value_at(
                s,
                d,
                b,
                fields[0].1,
            ) && ws_at(s, b, e) && s[e] == ',' && renders_fields_at(
                s,
                e + 1,
                hi,
                fields.drop_first(),
            )
    }
}

/// Relies on `String` as `FromIterator<char>`: collecting yields a
/// string of exactly the given characters, in order.
#[verifier::external_body]
fn string_from_chars(v: &Vec<char>) -> (s: String)
    ensures
        s@ == v@,
{
    v.iter().collect()
}

/// Whether `c` is JSON insignificant whitespace.
pub open spec fn is_json_ws(c: char) -> bool {
    c == ' ' || c == '\t' || c == '\n' || c == '\r'
}

/// The position of the first non-whitespace character at or after `pos`.
fn skip_ws(s: &str, n: usize, pos: usize) -> (r: usize)
    requires
        n == s@.len(),
        pos <= n,
    ensures
        pos <= r <= n,
        r < n ==> !is_json_ws(s@[r as int]),
        pos < n && !is_json_ws(s@[pos as int]) ==> r == pos,
        ws_at(s@, pos as int, r as int),
    decreases n - pos,
{
    if pos == n {
        return pos;
    }
    let c = s.get_char(pos);
    if c == ' ' || c == '\t' || c == '\n' || c == '\r' {
        skip_ws(s, n, pos + 1)
    } else {
        pos
    }
}

/// Whether the literal `lit` occurs in `s` at `pos`.
fn has_lit_at(s: &str, n: usize, pos: usize, lit: &str) -> (r: bool)
    requires
        n == s@.len(),
        pos <= n,
    ensures
        r <==> pos + lit@.len() <= n && s@.subrange(pos as int, pos + lit@.len()) == lit@,
{
    let m = lit.unicode_len();
    if m > n - pos {
        proof {
            assert(pos + lit@.len() > n);
        }
        return false;
    }
    let mut i: usize = 0;
    while i < m
        invariant
            0 <= i <= m,
            m == lit@.len(),
            n == s@.len(),
            pos + m <= n,
            forall|k: int| 0 <= k < i ==> s@[pos + k] == lit@[k],
        decreases m - i,
    {
        if s.get_char(pos + i) != lit.get_char(i) {
            proof {
                assert(s@.subrange(pos as int, pos + lit@.len()) != lit@) by {
                    assert(s@.subrange(pos as int, pos + lit@.len())[i as int] == s@[pos + i]);
                }
            }
            return false;
        }
        i = i + 1;
    }
    proof {
        assert(s@.subrange(pos as int, pos + lit@.len()) =~= lit@);
    }
    true
}

/// The value of one hexadecimal digit character, if it is one.
fn hex_value(c: char) -> (r: Option<u32>)
    ensures
        r is Some ==> r->0 < 16,
        forall|d: int| 0 <= d < 16 && c == crate::json::hex_digit(d) ==> r == Option::Some(d as u32),
        r is Some <==> is_hex_char(c),
        r is Some ==> r->0 == hex_char_value(c),
{
    match c {
        '0' => Some(0),
        '1' => Some(1),
        '2' => Some(2),
        '3' => Some(3),
        '4' => Some(4),
        '5' => Some(5),
        '6' => Some(6),
        '7' => Some(7),
        '8' => Some(8),
        '9' => Some(9),
        'a' => Some(10),
        'b' => Some(11),
        'c' => Some(12),
        'd' => Some(13),
        'e' => Some(14),
        'f' => Some(15),
        'A' => Some(10),
        'B' => Some(11),
        'C' => Some(12),
        'D' => Some(13),
        'E' => Some(14),
        'F' => Some(15),
        _ => None,
    }
}

/// A non-empty element run occupies a non-negative span.
proof fn lemma_elems_bounds(s: Seq<char>, lo: int, hi: int, items: Seq<JsonV>)
    requires
        renders_elems_at(s, lo, hi, items),
        items.len() >= 1,
    ensures
        lo <= hi,
{
    if items.len() == 1 {
        let (a, b) = choose|a: int, b: int|
            #![trigger elem_split(a, b, b)]
            lo <= a <= b <= hi && ws_at(s, lo, a) && renders_value_at(s, a, b, items[0]) && ws_at(
                s,
                b,
                hi,
            );
    } else {
        let (a, b, c) = choose|a: int, b: int, c: int|
            #![trigger elem_split(a, b, c)]
            lo <= a <= b <= c < hi && ws_at(s, lo, a) && renders_value_at(s, a, b, items[0])
                && ws_at(s, b, c) && s[c] == ',' && renders_elems_at(
                s,
                c + 1,
                hi,
                items.drop_first(),
            );
    }
}

/// A non-empty field run occupies a non-negative span.
proof fn lemma_fields_bounds(s: Seq<char>, lo: int, hi: int, fields: Seq<(Seq<char>, JsonV)>)
    requires
        renders_fields_at(s, lo, hi, fields),
        fields.len() >= 1,
    ensures
        lo <= hi,
{
    if fields.len() == 1 {
        let (a, kb, c, d, b) = choose|a: int, kb: int, c: int, d: int, b: int|
            #![trigger field_split(a, kb, c, d, b, b)]
            lo <= a <= kb <= c < d <= b <= hi && ws_at(s, lo, a) && renders_string_at(
                s,
                a,
                kb,
                fields[0].0,
            ) && ws_at(s, kb, c) && s[c] == ':' && ws_at(s, c + 1, d) && renders_value_at(
                s,
                d,
                b,
                fields[0].1,
            ) && ws_at(s, b, hi);
    } else {
        let (a, kb, c, d, b, e) = choose|a: int, kb: int, c: int, d: int, b: int, e: int|
            #![trigger field_split(a, kb, c, d, b, e)]
            lo <= a <= kb <= c < d <= b <= e < hi && ws_at(s, lo, a) && renders_string_at(
                s,
                a,
                kb,
                fields[0].0,
            ) && ws_at(s, kb, c) && s[c] == ':' && ws_at(s, c + 1, d) && renders_value_at(
                s,
                d,
                b,
                fields[0].1,
            ) && ws_at(s, b, e) && s[e] == ',' && renders_fields_at(
                s,
                e + 1,
                hi,
                fields.drop_first(),
            );
    }
}

/// One whitespace-framed value is a one-element element run.
proof fn lemma_single_elem(s: Seq<char>, lo: int, a: int, b: int, hi: int, items: Seq<JsonV>)
    requires
        items.len() == 1,
        lo <= a <= b <= hi,
        ws_at(s, lo, a),
        renders_value_at(s, a, b, items[0]),
        ws_at(s, b, hi),
    ensures
        renders_elems_at(s, lo, hi, items),
{
    assert(elem_split(a, b, b));
}

/// A value, a comma and a rendered run form a longer run.
proof fn lemma_cons_elems(
    s: Seq<char>,
    lo: int,
    a: int,
    b: int,
    c: int,
    hi: int,
    iv: JsonV,
    rest: Seq<JsonV>,
    items: Seq<JsonV>,
)
    requires
        items.len() >= 2,
        items[0] == iv,
        items.drop_first() == rest,
        lo <= a <= b <= c < hi,
        ws_at(s, lo, a),
        renders_value_at(s, a, b, iv),
        ws_at(s, b, c),
        s[c] == ',',
        renders_elems_at(s, c + 1, hi, rest),
    ensures
        renders_elems_at(s, lo, hi, items),
{
    assert(elem_split(a, b, c));
    assert(renders_value_at(s, a, b, items[0]));
    assert(renders_elems_at(s, c + 1, hi, items.drop_first()));
}

/// One whitespace-framed key/value pair is a one-field field run.
proof fn lemma_single_field(
    s: Seq<char>,
    lo: int,
    a: int,
    kb: int,
    c: int,
    d: int,
    b: int,
    hi: int,
    fields: Seq<(Seq<char>, JsonV)>,
)
    requires
        fields.len() == 1,
        lo <= a <= kb <= c < d <= b <= hi,
        ws_at(s, lo, a),
        renders_string_at(s, a, kb, fields[0].0),
        ws_at(s, kb, c),
        s[c] == ':',
        ws_at(s, c + 1, d),
        renders_value_at(s, d, b, fields[0].1),
        ws_at(s, b, hi),
    ensures
        renders_fields_at(s, lo, hi, fields),
{
    assert(field_split(a, kb, c, d, b, b));
}

/// A field, a comma and a rendered field run form a longer run.
proof fn lemma_cons_fields(
    s: Seq<char>,
    lo: int,
    a: int,
    kb: int,
    c: int,
    d: int,
    b: int,
    e: int,
    hi: int,
    rest: Seq<(Seq<char>, JsonV)>,
    fields: Seq<(Seq<char>, JsonV)>,
)
    requires
        fields.len() >= 2,
        fields.drop_first() == rest,
        lo <= a <= kb <= c < d <= b <= e < hi,
        ws_at(s, lo, a),
        renders_string_at(s, a, kb, fields[0].0),
        ws_at(s, kb, c),
        s[c] == ':',
        ws_at(s, c + 1, d),
        renders_value_at(s, d, b, fields[0].1),
        ws_at(s, b, e),
        s[e] == ',',
        renders_fields_at(s, e + 1, hi, rest),
    ensures
        renders_fields_at(s, lo, hi, fields),
{
    assert(field_split(a, kb, c, d, b, e));
    assert(renders_fields_at(s, e + 1, hi, fields.drop_first()));
}

/// Extending a rendered body by one rendered character.
proof fn lemma_body_at_snoc(s: Seq<char>, lo: int, mid: int, hi: int, t: Seq<char>, c: char)
    requires
        renders_body_at(s, lo, mid, t),
        renders_char_at(s, mid, hi, c),
    ensures
        renders_body_at(s, lo, hi, t.push(c)),
    decreases t.len(),
{
    if t.len() == 0 {
        assert(lo == mid);
        assert(t.push(c).drop_first() =~= Seq::<char>::empty());
        assert(t.push(c)[0] == c);
        assert(mid < hi);
        assert(renders_char_at(s, lo, hi, t.push(c)[0]));
        assert(renders_body_at(s, hi, hi, t.push(c).drop_first()));
    } else {
        let m = choose|m: int|
            lo < m <= mid && #[trigger] renders_char_at(s, lo, m, t[0]) && renders_body_at(
                s,
                m,
                mid,
                t.drop_first(),
            );
        lemma_body_at_snoc(s, m, mid, hi, t.drop_first(), c);
        assert(t.push(c).drop_first() =~= t.drop_first().push(c));
        assert(t.push(c)[0] == t[0]);
        assert(renders_char_at(s, lo, m, t.push(c)[0]));
        assert(renders_body_at(s, m, hi, t.push(c).drop_first()));
        assert(mid < hi);
    }
}

/// Characters with the same scalar value are the same character.
proof fn lemma_char_scalar_eq(a: char, b: char)
    requires
        a as u32 == b as u32,
    ensures
        a == b,
{
}

/// How the text after an opening quote decomposes around the next
/// source character: either one escaped character follows, or the
/// closing quote does.
proof fn lemma_string_step(s: Seq<char>, i: int, k: int, t: Seq<char>, rest: Seq<char>)
    requires
        0 <= k <= t.len(),
        0 <= i <= s.len(),
        s.skip(i) == str_body_text(t.skip(k)) + seq!['"'] + rest,
    ensures
        k < t.len() ==> {
            let e = esc_char(t[k]);
            &&& i + e.len() <= s.len()
            &&& (forall|x: int| 0 <= x < e.len() ==> s[i + x] == #[trigger] e[x])
            &&& s.skip(i + e.len()) == str_body_text(t.skip(k + 1)) + seq!['"'] + rest
        },
        k == t.len() ==> i < s.len() && s[i] == '"' && s.skip(i).len() == 1 + rest.len(),
{
    if k < t.len() {
        let e = esc_char(t[k]);
        assert(t.skip(k)[0] == t[k]);
        assert(t.skip(k).drop_first() =~= t.skip(k + 1));
        assert(str_body_text(t.skip(k)) == e + str_body_text(t.skip(k + 1)));
        let tail = str_body_text(t.skip(k + 1)) + seq!['"'] + rest;
        assert(s.skip(i) =~= e + tail);
        assert(s.skip(i).len() == s.len() - i);
        assert forall|x: int| 0 <= x < e.len() implies s[i + x] == #[trigger] e[x] by {
            assert(s.skip(i)[x] == s[i + x]);
            assert((e + tail)[x] == e[x]);
        }
        assert(s.skip(i + e.len()) =~= tail) by {
            assert forall|y: int| 0 <= y < s.len() - i - e.len() implies s.skip(
                i + e.len(),
            )[y] == tail[y] by {
                assert(s.skip(i + e.len())[y] == s[i + e.len() + y]);
                assert(s.skip(i)[e.len() + y] == s[i + e.len() + y]);
                assert((e + tail)[e.len() + y] == tail[y]);
            }
        }
    } else {
        assert(t.skip(k) =~= Seq::<char>::empty());
        assert(str_body_text(t.skip(k)) =~= Seq::<char>::empty());
        assert(s.skip(i) =~= seq!['"'] + rest);
        assert(s.skip(i).len() == s.len() - i);
        assert(i < s.len());
        assert(s.skip(i)[0] == s[i]);
        assert((seq!['"'] + rest)[0] == '"');
    }
}

/// Parse the string literal starting at the opening quote `pos`;
/// return its characters and the position after the closing quote.  On
/// the printed form of any string it answers exactly that string.
#[verifier::loop_isolation(false)]
#[verifier::rlimit(100)]
fn parse_string(s: &str, n: usize, pos: usize) -> (r: Option<(String, usize)>)
    requires
        n == s@.len(),
        pos < n,
        s@[pos as int] == '"',
    ensures
        r is Some ==> pos < (r->0).1 <= n,
        r is Some ==> renders_string_at(s@, pos as int, (r->0).1 as int, (r->0).0@),
        forall|t: Seq<char>, rest: Seq<char>|
            s@.skip(pos as int) == #[trigger] (str_text(t) + rest) ==> r is Some && (r->0).0@ == t
                && (r->0).1 == pos + str_text(t).len(),
{
    let mut out: Vec<char> = Vec::new();
    let mut i: usize = pos + 1;
    proof {
        assert forall|t: Seq<char>, rest: Seq<char>|
            s@.skip(pos as int) == #[trigger] (str_text(t) + rest) implies out@ == t.take(
            out@.len() as int,
        ) && out@.len() <= t.len() && s@.skip(i as int) == str_body_text(t.skip(out@.len() as int))
            + seq!['"'] + rest by {
            assert(out@ =~= t.take(0));
            assert(t.skip(0) =~= t);
            let whole = str_text(t) + rest;
            assert(s@.skip(pos as int).len() == n - pos);
            assert forall|y: int| 0 <= y < n - pos - 1 implies s@.skip(i as int)[y] == (
            str_body_text(t) + seq!['"'] + rest)[y] by {
                assert(s@.skip(i as int)[y] == s@[pos + 1 + y]);
                assert(s@.skip(pos as int)[1 + y] == s@[pos + 1 + y]);
                assert(whole[1 + y] == (str_body_text(t) + seq!['"'] + rest)[y]);
            }
            assert(s@.skip(i as int) =~= str_body_text(t) + seq!['"'] + rest);
        }
    }
    loop
        invariant
            pos < i <= n,
            n == s@.len(),
            renders_body_at(s@, pos + 1, i as int, out@),
            forall|t: Seq<char>, rest: Seq<char>|
                s@.skip(pos as int) == #[trigger] (str_text(t) + rest) ==> out@ == t.take(
                    out@.len() as int,
                ) && out@.len() <= t.len() && s@.skip(i as int) == str_body_text(
                    t.skip(out@.len() as int),
                ) + seq!['"'] + rest,
        decreases n - i,
    {
        let ghost k = out@.len() as int;
        let ghost out0 = out@;
        let ghost i0 = i as int;
        if i >= n {
            proof {
                assert forall|t: Seq<char>, rest: Seq<char>|
                    s@.skip(pos as int) == #[trigger] (str_text(t) + rest) implies false by {
                    lemma_string_step(s@, i as int, k, t, rest);
                    if k < t.len() {
                        crate::json::lemma_esc_char_shape(t[k]);
                    }
                }
            }
            return None;
        }
        let c = s.get_char(i);
        if c == '"' {
            let ghost pre = out@;
            let text = string_from_chars(&out);
            proof {
                assert(renders_string_at(s@, pos as int, i + 1, pre));
                assert forall|t: Seq<char>, rest: Seq<char>|
                    s@.skip(pos as int) == #[trigger] (str_text(t) + rest) implies pre == t && i
                    + 1 == pos + str_text(t).len() by {
                    lemma_string_step(s@, i as int, k, t, rest);
                    if k < t.len() {
                        crate::json::lemma_esc_char_shape(t[k]);
                        assert(s@[i as int] == esc_char(t[k])[0]);
                        assert(false);
                    }
                    assert(pre =~= t);
                    assert(s@.skip(pos as int).len() == n - pos);
                    assert(s@.skip(i as int).len() == n - i);
                }
            }
            return Some((text, i + 1));
        }
        proof {
            assert forall|t: Seq<char>, rest: Seq<char>|
                s@.skip(pos as int) == #[trigger] (str_text(t) + rest) implies k < t.len() && s@[
                i as int] == esc_char(t[k])[0] by {
                lemma_string_step(s@, i as int, k, t, rest);
            }
        }
        if c == '\\' {
            if i + 1 >= n {
                proof {
                    assert forall|t: Seq<char>, rest: Seq<char>|
                        s@.skip(pos as int) == #[trigger] (str_text(t) + rest) implies false by {
                        lemma_string_step(s@, i as int, k, t, rest);
                        crate::json::lemma_esc_char_shape(t[k]);
                    }
                }
                return None;
            }
            let e = s.get_char(i + 1);
            proof {
                assert forall|t: Seq<char>, rest: Seq<char>|
                    s@.skip(pos as int) == #[trigger] (str_text(t) + rest) implies esc_char(
                    t[k],
                ).len() >= 2 && e == esc_char(t[k])[1] by {
                    lemma_string_step(s@, i as int, k, t, rest);
                    crate::json::lemma_esc_char_shape(t[k]);
                }
            }
            let step: usize;
            if e == '"' {
                out.push('"');
                step = 2;
            } else if e == '\\' {
                out.push('\\');
                step = 2;
            } else if e == '/' {
                out.push('/');
                step = 2;
            } else if e == 'n' {
                out.push('\n');
                step = 2;
            } else if e == 'r' {
                out.push('\r');
                step = 2;
            } else if e == 't' {
                out.push('\t');
                step = 2;
            } else if e == 'b' {
                out.push('\u{8}');
                step = 2;
            } else if e == 'f' {
                out.push('\u{c}');
                step = 2;
            } else if e == 'u' {
                if n - i < 6 {
                    proof {
                        assert forall|t: Seq<char>, rest: Seq<char>|
                            s@.skip(pos as int) == #[trigger] (str_text(t) + rest) implies false by {
                            lemma_string_step(s@, i as int, k, t, rest);
                            crate::json::lemma_esc_char_shape(t[k]);
                        }
                    }
                    return None;
                }
                let Some(h1) = hex_value(s.get_char(i + 2)) else {
                    proof {
                        assert forall|t: Seq<char>, rest: Seq<char>|
                            s@.skip(pos as int) == #[trigger] (str_text(t) + rest) implies false by {
                            lemma_string_step(s@, i as int, k, t, rest);
                            crate::json::lemma_esc_char_shape(t[k]);
                            assert(s@[i + 2] == crate::json::hex_digit(0));
                        }
                    }
                    return None
                };
                let Some(h2) = hex_value(s.get_char(i + 3)) else {
                    proof {
                        assert forall|t: Seq<char>, rest: Seq<char>|
                            s@.skip(pos as int) == #[trigger] (str_text(t) + rest) implies false by {
                            lemma_string_step(s@, i as int, k, t, rest);
                            crate::json::lemma_esc_char_shape(t[k]);
                            assert(s@[i + 3] == crate::json::hex_digit(0));
                        }
                    }
                    return None
                };
                let Some(h3) = hex_value(s.get_char(i + 4)) else {
                    proof {
                        assert forall|t: Seq<char>, rest: Seq<char>|
                            s@.skip(pos as int) == #[trigger] (str_text(t) + rest) implies false by {
                            lemma_string_step(s@, i as int, k, t, rest);
                            crate::json::lemma_esc_char_shape(t[k]);
                            assert(s@[i + 4] == crate::json::hex_digit(t[k] as u32 as int / 16));
                        }
                    }
                    return None
                };
                let Some(h4) = hex_value(s.get_char(i + 5)) else {
                    proof {
                        assert forall|t: Seq<char>, rest: Seq<char>|
                            s@.skip(pos as int) == #[trigger] (str_text(t) + rest) implies false by {
                            lemma_string_step(s@, i as int, k, t, rest);
                            crate::json::lemma_esc_char_shape(t[k]);
                            assert(s@[i + 5] == crate::json::hex_digit(t[k] as u32 as int % 16));
                        }
                    }
                    return None
                };
                let code: u32 = ((h1 * 16 + h2) * 16 + h3) * 16 + h4;
                if code >= 0x80 {
                    proof {
                        assert forall|t: Seq<char>, rest: Seq<char>|
                            s@.skip(pos as int) == #[trigger] (str_text(t) + rest) implies false by {
                            lemma_string_step(s@, i as int, k, t, rest);
                            crate::json::lemma_esc_char_shape(t[k]);
                            assert(s@[i + 2] == crate::json::hex_digit(0));
                            assert(s@[i + 3] == crate::json::hex_digit(0));
                            assert(s@[i + 4] == crate::json::hex_digit(t[k] as u32 as int / 16));
                            assert(s@[i + 5] == crate::json::hex_digit(t[k] as u32 as int % 16));
                            assert(code == t[k] as u32);
                        }
                    }
                    return None;
                }
                out.push((code as u8) as char);
                step = 6;
            } else {
                proof {
                    assert forall|t: Seq<char>, rest: Seq<char>|
                        s@.skip(pos as int) == #[trigger] (str_text(t) + rest) implies false by {
                        lemma_string_step(s@, i as int, k, t, rest);
                        crate::json::lemma_esc_char_shape(t[k]);
                    }
                }
                return None;
            }
            proof {
                let pc = out@.last();
                assert(out@ == out0.push(pc));
                if e == 'u' {
                    assert(s@[i0 + 1] == 'u');
                    assert(is_hex_char(s@[i0 + 2]) && is_hex_char(s@[i0 + 3]) && is_hex_char(
                        s@[i0 + 4],
                    ) && is_hex_char(s@[i0 + 5]));
                    assert(((hex_char_value(s@[i0 + 2]) * 16 + hex_char_value(s@[i0 + 3])) * 16
                        + hex_char_value(s@[i0 + 4])) * 16 + hex_char_value(s@[i0 + 5]) == pc
                        as u32);
                    assert((pc as u32) < 0x80);
                    assert(renders_char_at(s@, i0, i0 + 6, pc));
                } else {
                    assert(renders_char_at(s@, i0, i0 + 2, pc));
                }
                assert(renders_char_at(s@, i0, i0 + step, pc));
                lemma_body_at_snoc(s@, pos + 1, i0, i0 + step, out0, pc);
                assert forall|t: Seq<char>, rest: Seq<char>|
                    s@.skip(pos as int) == #[trigger] (str_text(t) + rest) implies out@ == t.take(
                    out@.len() as int,
                ) && out@.len() <= t.len() && s@.skip(i + step) == str_body_text(
                    t.skip(out@.len() as int),
                ) + seq!['"'] + rest by {
                    lemma_string_step(s@, i as int, k, t, rest);
                    crate::json::lemma_esc_char_shape(t[k]);
                    assert(s@[i as int] == esc_char(t[k])[0]);
                    assert(esc_char(t[k])[0] == '\\');
                    assert(esc_char(t[k]).len() >= 2);
                    assert(e == esc_char(t[k])[1]);
                    if e == '"' {
                        assert(t[k] == '"');
                        assert(out@.last() == '"');
                    } else if e == '\\' {
                        assert(t[k] == '\\');
                        assert(out@.last() == '\\');
                    } else if e == 'n' {
                        assert(t[k] == '\n');
                        assert(out@.last() == '\n');
                    } else if e == 'r' {
                        assert(t[k] == '\r');
                        assert(out@.last() == '\r');
                    } else if e == 't' {
                        assert(t[k] == '\t');
                        assert(out@.last() == '\t');
                    } else if e == 'u' {
                        assert(s@[i + 2] == crate::json::hex_digit(0));
                        assert(s@[i + 3] == crate::json::hex_digit(0));
                        assert(s@[i + 4] == crate::json::hex_digit(t[k] as u32 as int / 16));
                        assert(s@[i + 5] == crate::json::hex_digit(t[k] as u32 as int % 16));
                        assert((t[k] as u32) < 0x20);
                        assert(out@.last() as u32 == t[k] as u32);
                        lemma_char_scalar_eq(out@.last(), t[k]);
                    } else {
                        assert(false);
                    }
                    assert(out@.last() == t[k]);
                    assert(esc_char(t[k]).len() == step);
                    assert(out@ =~= t.take(k + 1));
                }
            }
            i = i + step;
        } else {
            out.push(c);
            proof {
                assert(renders_char_at(s@, i0, i0 + 1, c));
                lemma_body_at_snoc(s@, pos + 1, i0, i0 + 1, out0, c);
                assert forall|t: Seq<char>, rest: Seq<char>|
                    s@.skip(pos as int) == #[trigger] (str_text(t) + rest) implies out@ == t.take(
                    out@.len() as int,
                ) && out@.len() <= t.len() && s@.skip(i + 1) == str_body_text(
                    t.skip(out@.len() as int),
                ) + seq!['"'] + rest by {
                    lemma_string_step(s@, i as int, k, t, rest);
                    crate::json::lemma_esc_char_shape(t[k]);
                    assert(esc_char(t[k]).len() == 1);
                    assert(t[k] == c);
                    assert(out@ =~= t.take(k + 1));
                }
            }
            i = i + 1;
        }
    }
}

/// Parse the number starting at digit `pos`: the longest digit run,
/// rejected when its value passes the `u64` range.  On the canonical
/// text of a number followed by anything but a digit, it answers
/// exactly that number.
#[verifier::loop_isolation(false)]
fn parse_number(s: &str, n: usize, pos: usize) -> (r: Option<(u64, usize)>)
    requires
        n == s@.len(),
        pos < n,
    ensures
        r is Some ==> pos < (r->0).1 <= n,
        r is Some ==> renders_value_at(s@, pos as int, (r->0).1 as int, JsonV::Num((r->0).0)),
        forall|v: u64, rest: Seq<char>|
            s@.skip(pos as int) == #[trigger] (dec_spec(v as nat) + rest) && (rest.len() == 0
                || !is_dec_digit(rest[0])) ==> r == Option::Some(
                (v, (pos + dec_spec(v as nat).len()) as usize),
            ),
{
    let mut acc: u64 = 0;
    let mut i: usize = pos;
    while i < n
        invariant
            pos <= i <= n,
            forall|k: int| pos <= k < i ==> is_dec_digit(#[trigger] s@[k]),
            acc == dec_value(s@.subrange(pos as int, i as int)),
        decreases n - i,
    {
        let c = s.get_char(i);
        let d: u64 = match c {
            '0' => 0,
            '1' => 1,
            '2' => 2,
            '3' => 3,
            '4' => 4,
            '5' => 5,
            '6' => 6,
            '7' => 7,
            '8' => 8,
            '9' => 9,
            _ => {
                if i == pos {
                    proof {
                        lemma_number_text_shape(s@, pos as int, i as int, n as int);
                    }
                    return None;
                }
                proof {
                    lemma_number_text_shape(s@, pos as int, i as int, n as int);
                }
                return Some((acc, i));
            },
        };
        proof {
            assert(is_dec_digit(s@[i as int]) && dec_digit_value(s@[i as int]) == d);
        }
        if acc > (u64::MAX - d) / 10 {
            proof {
                assert(s@.subrange(pos as int, i + 1).drop_last() =~= s@.subrange(
                    pos as int,
                    i as int,
                ));
                assert(s@.subrange(pos as int, i + 1).last() == s@[i as int]);
                assert forall|v: u64, rest: Seq<char>|
                    s@.skip(pos as int) == #[trigger] (dec_spec(v as nat) + rest) && (rest.len()
                        == 0 || !is_dec_digit(rest[0])) implies false by {
                    lemma_dec_spec_value(v as nat);
                    let lv = dec_spec(v as nat).len() as int;
                    assert(s@.skip(pos as int).len() == n - pos);
                    assert(lv + rest.len() == n - pos);
                    assert(i + 1 - pos <= lv) by {
                        if i + 1 - pos > lv {
                            assert(s@.skip(pos as int)[lv] == s@[pos + lv]);
                            assert((dec_spec(v as nat) + rest)[lv] == rest[0]);
                            assert(is_dec_digit(s@[pos + lv]));
                        }
                    }
                    assert forall|k: int| 0 <= k <= i - pos implies s@[pos + k] == dec_spec(
                        v as nat,
                    )[k] by {
                        assert(s@.skip(pos as int)[k] == s@[pos + k]);
                        assert((dec_spec(v as nat) + rest)[k] == dec_spec(v as nat)[k]);
                    }
                    assert(s@.subrange(pos as int, i + 1) =~= dec_spec(v as nat).subrange(
                        0,
                        i + 1 - pos,
                    ));
                    crate::text::lemma_dec_value_monotone(dec_spec(v as nat), i + 1 - pos);
                    assert(dec_value(dec_spec(v as nat)) == v as nat);
                    assert(dec_value(s@.subrange(pos as int, i + 1)) <= v as nat);
                    assert(dec_value(s@.subrange(pos as int, i + 1)) == acc * 10 + d);
                }
            }
            return None;
        }
        acc = acc * 10 + d;
        proof {
            assert(s@.subrange(pos as int, i + 1).drop_last() =~= s@.subrange(
                pos as int,
                i as int,
            ));
            assert(s@.subrange(pos as int, i + 1).last() == s@[i as int]);
        }
        i = i + 1;
    }
    if i == pos {
        return None;
    }
    proof {
        lemma_number_text_shape(s@, pos as int, i as int, n as int);
    }
    Some((acc, i))
}

/// When the text at `pos` is a number's canonical digits followed by a
/// non-digit, a maximal digit run ending at `i` covers them exactly.
proof fn lemma_number_text_shape(s: Seq<char>, pos: int, i: int, n: int)
    requires
        n == s.len(),
        0 <= pos <= i <= n,
        forall|k: int| pos <= k < i ==> is_dec_digit(#[trigger] s[k]),
        i < n ==> !is_dec_digit(s[i]),
    ensures
        forall|v: u64, rest: Seq<char>|
            s.skip(pos) == #[trigger] (dec_spec(v as nat) + rest) && (rest.len() == 0
                || !is_dec_digit(rest[0])) ==> i == pos + dec_spec(v as nat).len() && dec_value(
                s.subrange(pos, i),
            ) == v as nat,
{
    assert forall|v: u64, rest: Seq<char>|
        s.skip(pos) == #[trigger] (dec_spec(v as nat) + rest) && (rest.len() == 0
            || !is_dec_digit(rest[0])) implies i == pos + dec_spec(v as nat).len() && dec_value(
        s.subrange(pos, i),
    ) == v as nat by {
        lemma_dec_spec_value(v as nat);
        let lv = dec_spec(v as nat).len() as int;
        assert(s.skip(pos).len() == n - pos);
        assert(lv + rest.len() == n - pos);
        assert(i >= pos + lv) by {
            if i < pos + lv {
                assert(s.skip(pos)[i - pos] == s[i]);
                assert((dec_spec(v as nat) + rest)[i - pos] == dec_spec(v as nat)[i - pos]);
                assert(is_dec_digit(s[i]));
            }
        }
        assert(i <= pos + lv) by {
            if i > pos + lv {
                assert(s.skip(pos)[lv] == s[pos + lv]);
                assert((dec_spec(v as nat) + rest)[lv] == rest[0]);
                assert(is_dec_digit(s[pos + lv]));
            }
        }
        assert forall|k: int| 0 <= k < lv implies s[pos + k] == dec_spec(v as nat)[k] by {
            assert(s.skip(pos)[k] == s[pos + k]);
            assert((dec_spec(v as nat) + rest)[k] == dec_spec(v as nat)[k]);
        }
        assert(s.subrange(pos, i) =~= dec_spec(v as nat));
    }
}

/// Splitting a concatenation off the front of a suffix.
proof fn lemma_skip_concat(s: Seq<char>, i: int, a: Seq<char>, b: Seq<char>)
    requires
        0 <= i <= s.len(),
        s.skip(i) == a + b,
    ensures
        i + a.len() <= s.len(),
        forall|x: int| 0 <= x < a.len() ==> s[i + x] == #[trigger] a[x],
        s.skip(i + a.len()) == b,
{
    assert(s.skip(i).len() == s.len() - i);
    assert forall|x: int| 0 <= x < a.len() implies s[i + x] == #[trigger] a[x] by {
        assert(s.skip(i)[x] == s[i + x]);
        assert((a + b)[x] == a[x]);
    }
    assert(s.skip(i + a.len()) =~= b) by {
        assert forall|y: int| 0 <= y < s.len() - i - a.len() implies s.skip(i + a.len())[y] == b[y] by {
            assert(s.skip(i + a.len())[y] == s[i + a.len() + y]);
            assert(s.skip(i)[a.len() + y] == s[i + a.len() + y]);
            assert((a + b)[a.len() + y] == b[y]);
        }
    }
}

/// Whether a number's text is properly delimited by what follows.
pub open spec fn num_sep(j: JsonV, rest: Seq<char>) -> bool {
    j is Num ==> rest.len() == 0 || !is_dec_digit(rest[0])
}

/// How the remaining elements of an array print: the next element's
/// text, then a comma and the rest, or nothing after the last.
proof fn lemma_arr_text_step(items: Seq<JsonV>, e: int)
    requires
        0 <= e < items.len(),
    ensures
        e + 1 < items.len() ==> arr_text(items.skip(e)) == json_text(items[e]) + (seq![',']
            + arr_text(items.skip(e + 1))),
        e + 1 == items.len() ==> arr_text(items.skip(e)) == json_text(items[e])
            + Seq::<char>::empty(),
{
    assert(items.skip(e)[0] == items[e]);
    assert(items.skip(e).drop_first() =~= items.skip(e + 1));
    if e + 1 < items.len() {
        assert(arr_text(items.skip(e)) == json_text(items[e]) + seq![','] + arr_text(
            items.skip(e + 1),
        ));
        assert(json_text(items[e]) + seq![','] + arr_text(items.skip(e + 1)) =~= json_text(
            items[e],
        ) + (seq![','] + arr_text(items.skip(e + 1))));
    } else {
        assert(arr_text(items.skip(e)) == json_text(items[e]));
        assert(json_text(items[e]) =~= json_text(items[e]) + Seq::<char>::empty());
    }
}

/// How the remaining fields of an object print.
proof fn lemma_obj_text_step(fields: Seq<(Seq<char>, JsonV)>, e: int)
    requires
        0 <= e < fields.len(),
    ensures
        e + 1 < fields.len() ==> obj_text(fields.skip(e)) == str_text(fields[e].0) + (seq![':']
            + (json_text(fields[e].1) + (seq![','] + obj_text(fields.skip(e + 1))))),
        e + 1 == fields.len() ==> obj_text(fields.skip(e)) == str_text(fields[e].0) + (seq![':']
            + (json_text(fields[e].1) + Seq::<char>::empty())),
{
    assert(fields.skip(e)[0] == fields[e]);
    assert(fields.skip(e).drop_first() =~= fields.skip(e + 1));
    if e + 1 < fields.len() {
        assert(obj_text(fields.skip(e)) == str_text(fields[e].0) + seq![':'] + json_text(
            fields[e].1,
        ) + seq![','] + obj_text(fields.skip(e + 1)));
        assert(str_text(fields[e].0) + seq![':'] + json_text(fields[e].1) + seq![','] + obj_text(
            fields.skip(e + 1),
        ) =~= str_text(fields[e].0) + (seq![':'] + (json_text(fields[e].1) + (seq![','] + obj_text(
            fields.skip(e + 1),
        )))));
    } else {
        assert(obj_text(fields.skip(e)) == str_text(fields[e].0) + seq![':'] + json_text(
            fields[e].1,
        ));
        assert(str_text(fields[e].0) + seq![':'] + json_text(fields[e].1) =~= str_text(
            fields[e].0,
        ) + (seq![':'] + (json_text(fields[e].1) + Seq::<char>::empty())));
    }
}

/// Parse one JSON value whose first significant character is at or
/// after `pos`; return it and the position just past its last
/// character.  On the canonical text of any value, followed by
/// anything that does not extend a number, it answers exactly that
/// value.
#[verifier::loop_isolation(false)]
#[verifier::rlimit(100)]
pub fn parse_value(s: &str, n: usize, pos: usize) -> (r: Option<(Json, usize)>)
    requires
        n == s@.len(),
        pos <= n,
    ensures
        r is Some ==> pos < (r->0).1 <= n,
        r is Some ==> exists|a: int|
            pos <= a <= (r->0).1 && #[trigger] ws_at(s@, pos as int, a) && renders_value_at(
                s@,
                a,
                (r->0).1 as int,
                (r->0).0@,
            ),
        forall|j: JsonV, rest: Seq<char>|
            s@.skip(pos as int) == #[trigger] (json_text(j) + rest) && num_sep(j, rest) ==> r
                is Some && (r->0).0@ == j && (r->0).1 == pos + json_text(j).len(),
    decreases n - pos, 1int,
{
    let p = skip_ws(s, n, pos);
    proof {
        assert forall|j: JsonV, rest: Seq<char>|
            s@.skip(pos as int) == #[trigger] (json_text(j) + rest) implies p == pos && pos < n
            && s@[pos as int] == json_text(j)[0] by {
            crate::json::lemma_json_text_head(j);
            lemma_skip_concat(s@, pos as int, json_text(j), rest);
            assert(!is_json_ws(json_text(j)[0]));
        }
    }
    if p >= n {
        return None;
    }
    let c = s.get_char(p);
    proof {
        reveal_strlit("null");
        reveal_strlit("true");
        reveal_strlit("false");
        assert forall|j: JsonV, rest: Seq<char>|
            s@.skip(pos as int) == #[trigger] (json_text(j) + rest) implies c == json_text(
            j,
        )[0] by {
            crate::json::lemma_json_text_head(j);
        }
    }
    if c == 'n' {
        if has_lit_at(s, n, p, "null") {
            proof {
                assert forall|j: JsonV, rest: Seq<char>|
                    s@.skip(pos as int) == #[trigger] (json_text(j) + rest) implies j is Null
                    && json_text(j).len() == 4 by {
                    crate::json::lemma_json_text_head(j);
                }
                assert(s@.subrange(p as int, p + 4) == "null"@);
                assert(s@[p as int] == 'n' && s@[p + 1] == 'u' && s@[p + 2] == 'l' && s@[p + 3]
                    == 'l') by {
                    assert(s@.subrange(p as int, p + 4)[0] == s@[p as int]);
                    assert(s@.subrange(p as int, p + 4)[1] == s@[p + 1]);
                    assert(s@.subrange(p as int, p + 4)[2] == s@[p + 2]);
                    assert(s@.subrange(p as int, p + 4)[3] == s@[p + 3]);
                }
                assert(renders_value_at(s@, p as int, p + 4, JsonV::Null));
            }
            Some((Json::Null, p + 4))
        } else {
            proof {
                assert forall|j: JsonV, rest: Seq<char>|
                    s@.skip(pos as int) == #[trigger] (json_text(j) + rest) implies false by {
                    crate::json::lemma_json_text_head(j);
                    lemma_skip_concat(s@, pos as int, json_text(j), rest);
                    assert(s@.subrange(pos as int, pos + 4) =~= "null"@);
                }
            }
            None
        }
    } else if c == 't' {
        if has_lit_at(s, n, p, "true") {
            proof {
                assert forall|j: JsonV, rest: Seq<char>|
                    s@.skip(pos as int) == #[trigger] (json_text(j) + rest) implies j == JsonV::Bool(
                    true,
                ) && json_text(j).len() == 4 by {
                    crate::json::lemma_json_text_head(j);
                }
                assert(s@.subrange(p as int, p + 4) == "true"@);
                assert(s@[p as int] == 't' && s@[p + 1] == 'r' && s@[p + 2] == 'u' && s@[p + 3]
                    == 'e') by {
                    assert(s@.subrange(p as int, p + 4)[0] == s@[p as int]);
                    assert(s@.subrange(p as int, p + 4)[1] == s@[p + 1]);
                    assert(s@.subrange(p as int, p + 4)[2] == s@[p + 2]);
                    assert(s@.subrange(p as int, p + 4)[3] == s@[p + 3]);
                }
                assert(renders_value_at(s@, p as int, p + 4, JsonV::Bool(true)));
            }
            Some((Json::Bool(true), p + 4))
        } else {
            proof {
                assert forall|j: JsonV, rest: Seq<char>|
                    s@.skip(pos as int) == #[trigger] (json_text(j) + rest) implies false by {
                    crate::json::lemma_json_text_head(j);
                    lemma_skip_concat(s@, pos as int, json_text(j), rest);
                    assert(s@.subrange(pos as int, pos + 4) =~= "true"@);
                }
            }
            None
        }
    } else if c == 'f' {
        if has_lit_at(s, n, p, "false") {
            proof {
                assert forall|j: JsonV, rest: Seq<char>|
                    s@.skip(pos as int) == #[trigger] (json_text(j) + rest) implies j == JsonV::Bool(
                    false,
                ) && json_text(j).len() == 5 by {
                    crate::json::lemma_json_text_head(j);
                }
                assert(s@.subrange(p as int, p + 5) == "false"@);
                assert(s@[p as int] == 'f' && s@[p + 1] == 'a' && s@[p + 2] == 'l' && s@[p + 3]
                    == 's' && s@[p + 4] == 'e') by {
                    assert(s@.subrange(p as int, p + 5)[0] == s@[p as int]);
                    assert(s@.subrange(p as int, p + 5)[1] == s@[p + 1]);
                    assert(s@.subrange(p as int, p + 5)[2] == s@[p + 2]);
                    assert(s@.subrange(p as int, p + 5)[3] == s@[p + 3]);
                    assert(s@.subrange(p as int, p + 5)[4] == s@[p + 4]);
                }
                assert(renders_value_at(s@, p as int, p + 5, JsonV::Bool(false)));
            }
            Some((Json::Bool(false), p + 5))
        } else {
            proof {
                assert forall|j: JsonV, rest: Seq<char>|
                    s@.skip(pos as int) == #[trigger] (json_text(j) + rest) implies false by {
                    crate::json::lemma_json_text_head(j);
                    lemma_skip_concat(s@, pos as int, json_text(j), rest);
                    assert(s@.subrange(pos as int, pos + 5) =~= "false"@);
                }
            }
            None
        }
    } else if c == '"' {
        let res = parse_string(s, n, p);
        proof {
            assert forall|j: JsonV, rest: Seq<char>|
                s@.skip(pos as int) == #[trigger] (json_text(j) + rest) implies res is Some && j
                is Str && (res->0).0@ == j->Str_0 && (res->0).1 == pos + json_text(j).len() by {
                crate::json::lemma_json_text_head(j);
                assert(j is Str);
                assert(json_text(j) == str_text(j->Str_0));
                assert(str_text(j->Str_0) + rest == json_text(j) + rest);
            }
        }
        proof {
            if res is Some {
                assert(renders_value_at(
                    s@,
                    p as int,
                    (res->0).1 as int,
                    JsonV::Str((res->0).0@),
                ));
            }
        }
        match res {
            Some((txt, q)) => Some((Json::Str(txt), q)),
            None => None,
        }
    } else if c == '[' {
        let res = parse_array(s, n, p);
        proof {
            if res is Some {
                assert(pos <= p <= (res->0).1 && ws_at(s@, pos as int, p as int)
                    && renders_value_at(s@, p as int, (res->0).1 as int, (res->0).0@));
            }
            assert forall|j: JsonV, rest: Seq<char>|
                s@.skip(pos as int) == #[trigger] (json_text(j) + rest) implies j is Arr by {
                crate::json::lemma_json_text_head(j);
                if !(j is Arr) {
                    assert(c == 'n' || c == 't' || c == 'f' || c == '"' || c == '{'
                        || crate::text::is_dec_digit(c));
                }
            }
        }
        res
    } else if c == '{' {
        let res = parse_object(s, n, p);
        proof {
            if res is Some {
                assert(pos <= p <= (res->0).1 && ws_at(s@, pos as int, p as int)
                    && renders_value_at(s@, p as int, (res->0).1 as int, (res->0).0@));
            }
            assert forall|j: JsonV, rest: Seq<char>|
                s@.skip(pos as int) == #[trigger] (json_text(j) + rest) implies j is Obj by {
                crate::json::lemma_json_text_head(j);
                if !(j is Obj) {
                    assert(c == 'n' || c == 't' || c == 'f' || c == '"' || c == '['
                        || crate::text::is_dec_digit(c));
                }
            }
        }
        res
    } else {
        let res = parse_number(s, n, p);
        proof {
            assert forall|j: JsonV, rest: Seq<char>|
                s@.skip(pos as int) == #[trigger] (json_text(j) + rest) && num_sep(j, rest) implies res
                is Some && j is Num && (res->0).0 == j->Num_0 && (res->0).1 == pos + json_text(
                j,
            ).len() by {
                crate::json::lemma_json_text_head(j);
                assert(j is Num) by {
                    if !(j is Num) {
                        assert(c == 'n' || c == 't' || c == 'f' || c == '"' || c == '[' || c
                            == '{');
                    }
                }
                assert(json_text(j) == dec_spec(j->Num_0 as nat));
                assert(dec_spec(j->Num_0 as nat) + rest == json_text(j) + rest);
                assert(s@.skip(p as int) == dec_spec(j->Num_0 as nat) + rest);
                assert(s@.skip(p as int).len() == n - p);
                assert(dec_spec(j->Num_0 as nat).len() + rest.len() == n - p);
                assert(res == Option::Some(
                    (j->Num_0, (p + dec_spec(j->Num_0 as nat).len()) as usize),
                ));
            }
        }
        match res {
            Some((v, q)) => Some((Json::Num(v), q)),
            None => None,
        }
    }
}

/// Parse the array whose `[` is at `pos`.  On the printed text of any
/// array it answers exactly that array.
#[verifier::loop_isolation(false)]
#[verifier::rlimit(100)]
#[verifier::spinoff_prover]
fn parse_array(s: &str, n: usize, pos: usize) -> (r: Option<(Json, usize)>)
    requires
        n == s@.len(),
        pos < n,
        s@[pos as int] == '[',
        !is_json_ws(s@[pos as int]),
    ensures
        r is Some ==> pos < (r->0).1 <= n,
        r is Some ==> renders_value_at(s@, pos as int, (r->0).1 as int, (r->0).0@),
        forall|j: JsonV, rest: Seq<char>|
            s@.skip(pos as int) == #[trigger] (json_text(j) + rest) && j is Arr ==> r is Some && (
            r->0).0@ == j && (r->0).1 == pos + json_text(j).len(),
    decreases n - pos, 0int,
{
    proof {
        assert forall|j: JsonV, rest: Seq<char>|
            s@.skip(pos as int) == #[trigger] (json_text(j) + rest) && j is Arr implies s@.skip(
            pos + 1,
        ) == arr_text(j->Arr_0) + (seq![']'] + rest) by {
            assert(json_text(j) + rest =~= seq!['['] + (arr_text(j->Arr_0) + (seq![']'] + rest)));
            lemma_skip_concat(
                s@,
                pos as int,
                seq!['['],
                arr_text(j->Arr_0) + (seq![']'] + rest),
            );
        }
    }
    let mut items: Vec<Json> = Vec::new();
    let i0: usize = pos + 1;
    let p = skip_ws(s, n, i0);
    if p < n && s.get_char(p) == ']' {
        proof {
            assert forall|j: JsonV, rest: Seq<char>|
                s@.skip(pos as int) == #[trigger] (json_text(j) + rest) && j is Arr implies j
                == JsonV::Arr(Seq::<JsonV>::empty()) && pos + json_text(j).len() == p + 1 by {
                let elems = j->Arr_0;
                if elems.len() > 0 {
                    crate::json::lemma_json_text_head(elems[0]);
                    lemma_arr_text_step(elems, 0);
                    assert(elems.skip(0) =~= elems);
                    assert(s@.skip(pos + 1) =~= json_text(elems[0]) + arr_elem_tail(
                        elems,
                        0,
                        rest,
                    ));
                    lemma_skip_concat(s@, pos + 1, json_text(elems[0]), arr_elem_tail(elems, 0, rest));
                    assert(s@[pos + 1] == json_text(elems[0])[0]);
                    assert(!is_json_ws(s@[pos + 1]));
                    assert(s@[pos + 1] != ']');
                    assert(false);
                }
                assert(arr_text(elems) =~= Seq::<char>::empty());
                assert(s@.skip(pos + 1) =~= seq![']'] + rest);
                assert(s@.skip(pos + 1).len() == n - pos - 1);
                assert(s@.skip(pos + 1)[0] == s@[pos + 1]);
                assert((seq![']'] + rest)[0] == ']');
                assert(!is_json_ws(s@[pos + 1]));
                assert(elems =~= Seq::<JsonV>::empty());
            }
            assert(views_of(items@) =~= Seq::<JsonV>::empty());
            assert(renders_elems_at(s@, pos + 1, p as int, views_of(items@)));
            assert(renders_value_at(s@, pos as int, p + 1, JsonV::Arr(views_of(items@))));
        }
        return Some((Json::Arr(items), p + 1));
    }
    proof {
        assert forall|j: JsonV, rest: Seq<char>|
            s@.skip(pos as int) == #[trigger] (json_text(j) + rest) && j is Arr implies j->Arr_0.len()
            > 0 && views_of(items@) == j->Arr_0.take(0) && s@.skip(i0 as int) == json_text(
            j->Arr_0[0],
        ) + arr_elem_tail(j->Arr_0, 0, rest) by {
            let elems = j->Arr_0;
            if elems.len() == 0 {
                assert(arr_text(elems) =~= Seq::<char>::empty());
                assert(s@.skip(pos + 1) =~= seq![']'] + rest);
                assert(s@.skip(pos + 1).len() == n - pos - 1);
                assert(s@.skip(pos + 1)[0] == s@[pos + 1]);
                assert((seq![']'] + rest)[0] == ']');
                assert(!is_json_ws(s@[pos + 1]));
                assert(false);
            }
            lemma_arr_text_step(elems, 0);
            assert(elems.skip(0) =~= elems);
            assert(arr_text(elems) + (seq![']'] + rest) =~= json_text(elems[0]) + arr_elem_tail(
                elems,
                0,
                rest,
            ));
            assert(views_of(items@) =~= elems.take(0));
        }
    }
    let mut i: usize = i0;
    proof {
        assert forall|hi: int, rest: Seq<JsonV>|
            rest.len() >= 1 && #[trigger] renders_elems_at(s@, i as int, hi, rest) implies renders_elems_at(
            s@,
            pos + 1,
            hi,
            views_of(items@) + rest,
        ) by {
            assert(views_of(items@) + rest =~= rest);
        }
    }
    loop
        invariant
            pos < i <= n,
            n == s@.len(),
            forall|hi: int, rest: Seq<JsonV>|
                rest.len() >= 1 && #[trigger] renders_elems_at(s@, i as int, hi, rest)
                    ==> renders_elems_at(s@, pos + 1, hi, views_of(items@) + rest),
            forall|j: JsonV, rest: Seq<char>|
                s@.skip(pos as int) == #[trigger] (json_text(j) + rest) && j is Arr ==> {
                    let e = items@.len() as int;
                    &&& e < j->Arr_0.len()
                    &&& views_of(items@) == j->Arr_0.take(e)
                    &&& s@.skip(i as int) == json_text(j->Arr_0[e]) + arr_elem_tail(
                        j->Arr_0,
                        e,
                        rest,
                    )
                },
        decreases n - i,
    {
        let ghost e = items@.len() as int;
        let ghost pre_views = views_of(items@);
        let ghost istart = i as int;
        let res = parse_value(s, n, i);
        proof {
            assert forall|j: JsonV, rest: Seq<char>|
                s@.skip(pos as int) == #[trigger] (json_text(j) + rest) && j is Arr implies res
                is Some && (res->0).0@ == j->Arr_0[e] && (res->0).1 == i + json_text(
                j->Arr_0[e],
            ).len() by {
                assert(num_sep(j->Arr_0[e], arr_elem_tail(j->Arr_0, e, rest))) by {
                    let tl = arr_elem_tail(j->Arr_0, e, rest);
                    assert(tl[0] == ',' || tl[0] == ']');
                }
            }
        }
        let Some((item, q)) = res else { return None };
        let ghost pre_items = items@;
        items.push(item);
        proof {
            crate::json::lemma_views_of_push(pre_items, item);
            assert forall|j: JsonV, rest: Seq<char>|
                s@.skip(pos as int) == #[trigger] (json_text(j) + rest) && j is Arr implies views_of(
                items@,
            ) == j->Arr_0.take(e + 1) && s@.skip(q as int) == arr_elem_tail(j->Arr_0, e, rest) by {
                assert(views_of(items@) =~= j->Arr_0.take(e + 1));
                lemma_skip_concat(s@, i as int, json_text(j->Arr_0[e]), arr_elem_tail(j->Arr_0, e, rest));
            }
        }
        let q2 = skip_ws(s, n, q);
        proof {
            assert forall|j: JsonV, rest: Seq<char>|
                s@.skip(pos as int) == #[trigger] (json_text(j) + rest) && j is Arr implies q2 == q
                && q < n && s@[q as int] == arr_elem_tail(j->Arr_0, e, rest)[0] && (s@[q as int]
                == ',' || s@[q as int] == ']') by {
                let tl = arr_elem_tail(j->Arr_0, e, rest);
                assert(s@.skip(q as int).len() == n - q);
                assert(s@.skip(q as int)[0] == s@[q as int]);
                assert(tl[0] == ',' || tl[0] == ']');
                assert(!is_json_ws(s@[q as int]));
            }
        }
        if q2 >= n {
            proof {
                assert forall|j: JsonV, rest: Seq<char>|
                    s@.skip(pos as int) == #[trigger] (json_text(j) + rest) && j is Arr implies false by {}
            }
            return None;
        }
        let sep = s.get_char(q2);
        if sep == ']' {
            proof {
                let ghost iv = (res->0).0@;
                let a = choose|a: int|
                    istart <= a <= q && #[trigger] ws_at(s@, istart, a) && renders_value_at(
                        s@,
                        a,
                        q as int,
                        iv,
                    );
                assert(seq![iv].len() == 1 && seq![iv][0] == iv);
                lemma_single_elem(s@, istart, a, q as int, q2 as int, seq![iv]);
                assert(renders_elems_at(s@, pos + 1, q2 as int, pre_views + seq![iv]));
                assert(views_of(items@) =~= pre_views + seq![iv]);
                assert(renders_value_at(s@, pos as int, q2 + 1, JsonV::Arr(views_of(items@))));
                assert forall|j: JsonV, rest: Seq<char>|
                    s@.skip(pos as int) == #[trigger] (json_text(j) + rest) && j is Arr implies (
                res is Some) && views_of(items@) == j->Arr_0 && q2 + 1 == pos + json_text(
                    j,
                ).len() by {
                    let elems = j->Arr_0;
                    if e + 1 < elems.len() {
                        assert(arr_elem_tail(elems, e, rest)[0] == ',');
                        assert(false);
                    }
                    assert(views_of(items@) =~= elems);
                    assert(s@.skip(q2 as int) =~= seq![']'] + rest);
                    assert(s@.skip(q2 as int).len() == n - q2);
                    assert(s@.skip(pos as int).len() == n - pos);
                }
            }
            return Some((Json::Arr(items), q2 + 1));
        }
        if sep != ',' {
            proof {
                assert forall|j: JsonV, rest: Seq<char>|
                    s@.skip(pos as int) == #[trigger] (json_text(j) + rest) && j is Arr implies false by {}
            }
            return None;
        }
        proof {
            let ghost iv = (res->0).0@;
            let a = choose|a: int|
                istart <= a <= q && #[trigger] ws_at(s@, istart, a) && renders_value_at(
                    s@,
                    a,
                    q as int,
                    iv,
                );
            assert forall|hi: int, rest2: Seq<JsonV>|
                rest2.len() >= 1 && #[trigger] renders_elems_at(s@, q2 + 1, hi, rest2) implies renders_elems_at(
                s@,
                pos + 1,
                hi,
                views_of(items@) + rest2,
            ) by {
                lemma_elems_bounds(s@, q2 + 1, hi, rest2);
                assert((seq![iv] + rest2).len() >= 2);
                assert((seq![iv] + rest2)[0] == iv);
                assert((seq![iv] + rest2).drop_first() =~= rest2);
                lemma_cons_elems(
                    s@,
                    istart,
                    a,
                    q as int,
                    q2 as int,
                    hi,
                    iv,
                    rest2,
                    seq![iv] + rest2,
                );
                assert(renders_elems_at(s@, istart, hi, seq![iv] + rest2));
                assert(renders_elems_at(s@, pos + 1, hi, pre_views + (seq![iv] + rest2)));
                assert(views_of(items@) + rest2 =~= pre_views + (seq![iv] + rest2));
            }
            assert forall|j: JsonV, rest: Seq<char>|
                s@.skip(pos as int) == #[trigger] (json_text(j) + rest) && j is Arr implies e + 1
                < j->Arr_0.len() && s@.skip(q2 + 1) == json_text(j->Arr_0[e + 1]) + arr_elem_tail(
                j->Arr_0,
                e + 1,
                rest,
            ) by {
                let elems = j->Arr_0;
                if e + 1 == elems.len() {
                    assert(arr_elem_tail(elems, e, rest)[0] == ']');
                    assert(false);
                }
                assert(s@.skip(q2 as int) =~= seq![','] + (arr_text(elems.skip(e + 1)) + (
                seq![']'] + rest)));
                lemma_skip_concat(s@, q2 as int, seq![','], arr_text(elems.skip(e + 1)) + (
                seq![']'] + rest));
                lemma_arr_text_step(elems, e + 1);
                assert(arr_text(elems.skip(e + 1)) + (seq![']'] + rest) =~= json_text(
                    elems[e + 1],
                ) + arr_elem_tail(elems, e + 1, rest));
            }
        }
        i = q2 + 1;
    }
}

/// What follows one array element in the printed text: a comma and the
/// remaining elements, or nothing, then the closing bracket and the
/// trailing text.
pub open spec fn arr_elem_tail(items: Seq<JsonV>, e: int, rest: Seq<char>) -> Seq<char> {
    (if e + 1 < items.len() {
        seq![','] + arr_text(items.skip(e + 1))
    } else {
        Seq::<char>::empty()
    }) + (seq![']'] + rest)
}

/// What follows one object field in the printed text.
pub open spec fn obj_field_tail(
    fields: Seq<(Seq<char>, JsonV)>,
    e: int,
    rest: Seq<char>,
) -> Seq<char> {
    (if e + 1 < fields.len() {
        seq![','] + obj_text(fields.skip(e + 1))
    } else {
        Seq::<char>::empty()
    }) + (seq!['}'] + rest)
}

/// How an object's printed text decomposes after its opening brace.
proof fn lemma_obj_entry(s: Seq<char>, pos: int, n: int)
    requires
        n == s.len(),
        0 <= pos < n,
    ensures
        forall|j: JsonV, rest: Seq<char>|
            s.skip(pos) == #[trigger] (json_text(j) + rest) && j is Obj ==> {
                let fs = j->Obj_0;
                &&& s.skip(pos + 1) == obj_text(fs) + (seq!['}'] + rest)
                &&& (fs.len() == 0 ==> pos + 1 < n && s[pos + 1] == '}' && !is_json_ws(
                    s[pos + 1],
                ) && json_text(j).len() == 2)
                &&& (fs.len() > 0 ==> s.skip(pos + 1) == str_text(fs[0].0) + (seq![':'] + (
                json_text(fs[0].1) + obj_field_tail(fs, 0, rest))) && pos + 1 < n && s[pos + 1]
                    == '"' && !is_json_ws(s[pos + 1]))
            },
{
    assert forall|j: JsonV, rest: Seq<char>|
        s.skip(pos) == #[trigger] (json_text(j) + rest) && j is Obj implies {
            let fs = j->Obj_0;
            &&& s.skip(pos + 1) == obj_text(fs) + (seq!['}'] + rest)
            &&& (fs.len() == 0 ==> pos + 1 < n && s[pos + 1] == '}' && !is_json_ws(
                s[pos + 1],
            ) && json_text(j).len() == 2)
            &&& (fs.len() > 0 ==> s.skip(pos + 1) == str_text(fs[0].0) + (seq![':'] + (json_text(
                fs[0].1,
            ) + obj_field_tail(fs, 0, rest))) && pos + 1 < n && s[pos + 1] == '"' && !is_json_ws(
                s[pos + 1],
            ))
        } by {
        let fs = j->Obj_0;
        assert(json_text(j) + rest =~= seq!['{'] + (obj_text(fs) + (seq!['}'] + rest)));
        lemma_skip_concat(s, pos, seq!['{'], obj_text(fs) + (seq!['}'] + rest));
        if fs.len() == 0 {
            assert(obj_text(fs) =~= Seq::<char>::empty());
            assert(s.skip(pos + 1) =~= seq!['}'] + rest);
            assert(s.skip(pos + 1).len() == n - pos - 1);
            assert(s.skip(pos + 1)[0] == s[pos + 1]);
            assert((seq!['}'] + rest)[0] == '}');
        } else {
            lemma_obj_text_step(fs, 0);
            assert(fs.skip(0) =~= fs);
            assert(s.skip(pos + 1) =~= str_text(fs[0].0) + (seq![':'] + (json_text(fs[0].1)
                + obj_field_tail(fs, 0, rest))));
            assert(s.skip(pos + 1).len() == n - pos - 1);
            assert(s.skip(pos + 1)[0] == s[pos + 1]);
            assert((str_text(fs[0].0) + (seq![':'] + (json_text(fs[0].1) + obj_field_tail(
                fs,
                0,
                rest,
            ))))[0] == str_text(fs[0].0)[0]);
        }
    }
}

/// Parse the object whose `{` is at `pos`.  On the printed text of any
/// object it answers exactly that object.
#[verifier::loop_isolation(false)]
#[verifier::rlimit(100)]
#[verifier::spinoff_prover]
fn parse_object(s: &str, n: usize, pos: usize) -> (r: Option<(Json, usize)>)
    requires
        n == s@.len(),
        pos < n,
        s@[pos as int] == '{',
        !is_json_ws(s@[pos as int]),
    ensures
        r is Some ==> pos < (r->0).1 <= n,
        r is Some ==> renders_value_at(s@, pos as int, (r->0).1 as int, (r->0).0@),
        forall|j: JsonV, rest: Seq<char>|
            s@.skip(pos as int) == #[trigger] (json_text(j) + rest) && j is Obj ==> r is Some && (
            r->0).0@ == j && (r->0).1 == pos + json_text(j).len(),
    decreases n - pos, 0int,
{
    proof {
        lemma_obj_entry(s@, pos as int, n as int);
    }
    let mut fields: Vec<(String, Json)> = Vec::new();
    let i0: usize = pos + 1;
    let p = skip_ws(s, n, i0);
    if p < n && s.get_char(p) == '}' {
        proof {
            assert forall|j: JsonV, rest: Seq<char>|
                s@.skip(pos as int) == #[trigger] (json_text(j) + rest) && j is Obj implies j
                == JsonV::Obj(Seq::<(Seq<char>, JsonV)>::empty()) && pos + json_text(j).len() == p
                + 1 by {
                if j->Obj_0.len() > 0 {
                    assert(str_text(j->Obj_0[0].0)[0] == '"');
                    assert(s@[pos + 1] == '"');
                    assert(false);
                }
                assert(j->Obj_0 =~= Seq::<(Seq<char>, JsonV)>::empty());
            }
            assert(field_views_of(fields@) =~= Seq::<(Seq<char>, JsonV)>::empty());
            assert(renders_fields_at(s@, pos + 1, p as int, field_views_of(fields@)));
            assert(renders_value_at(s@, pos as int, p + 1, JsonV::Obj(field_views_of(fields@))));
        }
        return Some((Json::Obj(fields), p + 1));
    }
    proof {
        assert forall|j: JsonV, rest: Seq<char>|
            s@.skip(pos as int) == #[trigger] (json_text(j) + rest) && j is Obj implies j->Obj_0.len()
            > 0 && field_views_of(fields@) == j->Obj_0.take(0) && s@.skip(i0 as int) == str_text(
            j->Obj_0[0].0,
        ) + (seq![':'] + (json_text(j->Obj_0[0].1) + obj_field_tail(j->Obj_0, 0, rest))) by {
            if j->Obj_0.len() == 0 {
                assert(s@[pos + 1] == '}');
                assert(false);
            }
            assert(field_views_of(fields@) =~= j->Obj_0.take(0));
        }
    }
    let mut i: usize = i0;
    proof {
        assert forall|hi: int, rest: Seq<(Seq<char>, JsonV)>|
            rest.len() >= 1 && #[trigger] renders_fields_at(s@, i as int, hi, rest) implies renders_fields_at(
            s@,
            pos + 1,
            hi,
            field_views_of(fields@) + rest,
        ) by {
            assert(field_views_of(fields@) + rest =~= rest);
        }
    }
    loop
        invariant
            pos < i <= n,
            n == s@.len(),
            forall|hi: int, rest: Seq<(Seq<char>, JsonV)>|
                rest.len() >= 1 && #[trigger] renders_fields_at(s@, i as int, hi, rest)
                    ==> renders_fields_at(s@, pos + 1, hi, field_views_of(fields@) + rest),
            forall|j: JsonV, rest: Seq<char>|
                s@.skip(pos as int) == #[trigger] (json_text(j) + rest) && j is Obj ==> {
                    let e = fields@.len() as int;
                    &&& e < j->Obj_0.len()
                    &&& field_views_of(fields@) == j->Obj_0.take(e)
                    &&& s@.skip(i as int) == str_text(j->Obj_0[e].0) + (seq![':'] + (json_text(
                        j->Obj_0[e].1,
                    ) + obj_field_tail(j->Obj_0, e, rest)))
                },
        decreases n - i,
    {
        let ghost e = fields@.len() as int;
        let ghost pre_views = field_views_of(fields@);
        let ghost istart = i as int;
        let k = skip_ws(s, n, i);
        proof {
            assert forall|j: JsonV, rest: Seq<char>|
                s@.skip(pos as int) == #[trigger] (json_text(j) + rest) && j is Obj implies k == i
                && i < n && s@[i as int] == '"' by {
                assert(s@.skip(i as int).len() == n - i);
                assert(s@.skip(i as int)[0] == s@[i as int]);
                assert((str_text(j->Obj_0[e].0) + (seq![':'] + (json_text(j->Obj_0[e].1)
                    + obj_field_tail(j->Obj_0, e, rest))))[0] == str_text(j->Obj_0[e].0)[0]);
                assert(!is_json_ws(s@[i as int]));
            }
        }
        if k >= n || s.get_char(k) != '"' {
            proof {
                assert forall|j: JsonV, rest: Seq<char>|
                    s@.skip(pos as int) == #[trigger] (json_text(j) + rest) && j is Obj implies false by {}
            }
            return None;
        }
        let sres = parse_string(s, n, k);
        proof {
            assert forall|j: JsonV, rest: Seq<char>|
                s@.skip(pos as int) == #[trigger] (json_text(j) + rest) && j is Obj implies sres
                is Some && (sres->0).0@ == j->Obj_0[e].0 && (sres->0).1 == i + str_text(
                j->Obj_0[e].0,
            ).len() by {
                assert(s@.skip(i as int) == str_text(j->Obj_0[e].0) + (seq![':'] + (json_text(
                    j->Obj_0[e].1,
                ) + obj_field_tail(j->Obj_0, e, rest))));
            }
        }
        let Some((key, q)) = sres else { return None };
        let q2 = skip_ws(s, n, q);
        proof {
            assert forall|j: JsonV, rest: Seq<char>|
                s@.skip(pos as int) == #[trigger] (json_text(j) + rest) && j is Obj implies q2 == q
                && q < n && s@[q as int] == ':' && s@.skip(q + 1) == json_text(j->Obj_0[e].1)
                + obj_field_tail(j->Obj_0, e, rest) by {
                lemma_skip_concat(
                    s@,
                    i as int,
                    str_text(j->Obj_0[e].0),
                    seq![':'] + (json_text(j->Obj_0[e].1) + obj_field_tail(j->Obj_0, e, rest)),
                );
                lemma_skip_concat(
                    s@,
                    q as int,
                    seq![':'],
                    json_text(j->Obj_0[e].1) + obj_field_tail(j->Obj_0, e, rest),
                );
                assert(s@.skip(q as int)[0] == s@[q as int]);
                assert(!is_json_ws(s@[q as int]));
            }
        }
        if q2 >= n || s.get_char(q2) != ':' {
            proof {
                assert forall|j: JsonV, rest: Seq<char>|
                    s@.skip(pos as int) == #[trigger] (json_text(j) + rest) && j is Obj implies false by {}
            }
            return None;
        }
        let vres = parse_value(s, n, q2 + 1);
        proof {
            assert forall|j: JsonV, rest: Seq<char>|
                s@.skip(pos as int) == #[trigger] (json_text(j) + rest) && j is Obj implies vres
                is Some && (vres->0).0@ == j->Obj_0[e].1 && (vres->0).1 == q2 + 1 + json_text(
                j->Obj_0[e].1,
            ).len() by {
                assert(num_sep(j->Obj_0[e].1, obj_field_tail(j->Obj_0, e, rest))) by {
                    let tl = obj_field_tail(j->Obj_0, e, rest);
                    assert(tl[0] == ',' || tl[0] == '}');
                }
            }
        }
        let Some((val, q3)) = vres else { return None };
        let ghost pre_fields = fields@;
        let ghost entry = (key@, val@);
        fields.push((key, val));
        proof {
            crate::json::lemma_field_views_of_push(pre_fields, fields@.last());
            assert forall|j: JsonV, rest: Seq<char>|
                s@.skip(pos as int) == #[trigger] (json_text(j) + rest) && j is Obj implies field_views_of(
                fields@,
            ) == j->Obj_0.take(e + 1) && s@.skip(q3 as int) == obj_field_tail(j->Obj_0, e, rest) by {
                assert(field_views_of(fields@) =~= j->Obj_0.take(e + 1));
                lemma_skip_concat(
                    s@,
                    q2 + 1,
                    json_text(j->Obj_0[e].1),
                    obj_field_tail(j->Obj_0, e, rest),
                );
            }
        }
        let q4 = skip_ws(s, n, q3);
        proof {
            assert forall|j: JsonV, rest: Seq<char>|
                s@.skip(pos as int) == #[trigger] (json_text(j) + rest) && j is Obj implies q4 == q3
                && q3 < n && (s@[q3 as int] == ',' || s@[q3 as int] == '}') by {
                let tl = obj_field_tail(j->Obj_0, e, rest);
                assert(s@.skip(q3 as int).len() == n - q3);
                assert(s@.skip(q3 as int)[0] == s@[q3 as int]);
                assert(tl[0] == ',' || tl[0] == '}');
                assert(!is_json_ws(s@[q3 as int]));
            }
        }
        if q4 >= n {
            proof {
                assert forall|j: JsonV, rest: Seq<char>|
                    s@.skip(pos as int) == #[trigger] (json_text(j) + rest) && j is Obj implies false by {}
            }
            return None;
        }
        let sep = s.get_char(q4);
        if sep == '}' {
            proof {
                let d = choose|d: int|
                    q2 + 1 <= d <= q3 && #[trigger] ws_at(s@, q2 + 1, d) && renders_value_at(
                        s@,
                        d,
                        q3 as int,
                        entry.1,
                    );
                assert(seq![entry].len() == 1 && seq![entry][0] == entry);
                lemma_single_field(
                    s@,
                    istart,
                    k as int,
                    q as int,
                    q2 as int,
                    d,
                    q3 as int,
                    q4 as int,
                    seq![entry],
                );
                assert(renders_fields_at(s@, pos + 1, q4 as int, pre_views + seq![entry]));
                assert(field_views_of(fields@) =~= pre_views + seq![entry]);
                assert(renders_value_at(
                    s@,
                    pos as int,
                    q4 + 1,
                    JsonV::Obj(field_views_of(fields@)),
                ));
                assert forall|j: JsonV, rest: Seq<char>|
                    s@.skip(pos as int) == #[trigger] (json_text(j) + rest) && j is Obj implies field_views_of(
                    fields@,
                ) == j->Obj_0 && q4 + 1 == pos + json_text(j).len() by {
                    let fs = j->Obj_0;
                    if e + 1 < fs.len() {
                        assert(obj_field_tail(fs, e, rest)[0] == ',');
                        assert(false);
                    }
                    assert(field_views_of(fields@) =~= fs);
                    assert(s@.skip(q4 as int) =~= seq!['}'] + rest);
                    assert(s@.skip(q4 as int).len() == n - q4);
                    assert(s@.skip(pos as int).len() == n - pos);
                }
            }
            return Some((Json::Obj(fields), q4 + 1));
        }
        if sep != ',' {
            proof {
                assert forall|j: JsonV, rest: Seq<char>|
                    s@.skip(pos as int) == #[trigger] (json_text(j) + rest) && j is Obj implies false by {}
            }
            return None;
        }
        proof {
            let d = choose|d: int|
                q2 + 1 <= d <= q3 && #[trigger] ws_at(s@, q2 + 1, d) && renders_value_at(
                    s@,
                    d,
                    q3 as int,
                    entry.1,
                );
            assert forall|hi: int, rest2: Seq<(Seq<char>, JsonV)>|
                rest2.len() >= 1 && #[trigger] renders_fields_at(s@, q4 + 1, hi, rest2) implies renders_fields_at(
                s@,
                pos + 1,
                hi,
                field_views_of(fields@) + rest2,
            ) by {
                lemma_fields_bounds(s@, q4 + 1, hi, rest2);
                assert((seq![entry] + rest2).len() >= 2);
                assert((seq![entry] + rest2)[0] == entry);
                assert((seq![entry] + rest2).drop_first() =~= rest2);
                lemma_cons_fields(
                    s@,
                    istart,
                    k as int,
                    q as int,
                    q2 as int,
                    d,
                    q3 as int,
                    q4 as int,
                    hi,
                    rest2,
                    seq![entry] + rest2,
                );
                assert(renders_fields_at(s@, istart, hi, seq![entry] + rest2));
                assert(renders_fields_at(s@, pos + 1, hi, pre_views + (seq![entry] + rest2)));
                assert(field_views_of(fields@) + rest2 =~= pre_views + (seq![entry] + rest2));
            }
            assert forall|j: JsonV, rest: Seq<char>|
                s@.skip(pos as int) == #[trigger] (json_text(j) + rest) && j is Obj implies e + 1
                < j->Obj_0.len() && s@.skip(q4 + 1) == str_text(j->Obj_0[e + 1].0) + (seq![':'] + (
            json_text(j->Obj_0[e + 1].1) + obj_field_tail(j->Obj_0, e + 1, rest))) by {
                let fs = j->Obj_0;
                if e + 1 == fs.len() {
                    assert(obj_field_tail(fs, e, rest)[0] == '}');
                    assert(false);
                }
                assert(s@.skip(q4 as int) =~= seq![','] + (obj_text(fs.skip(e + 1)) + (seq!['}']
                    + rest)));
                lemma_skip_concat(s@, q4 as int, seq![','], obj_text(fs.skip(e + 1)) + (seq!['}']
                    + rest));
                lemma_obj_text_step(fs, e + 1);
                assert(obj_text(fs.skip(e + 1)) + (seq!['}'] + rest) =~= str_text(fs[e + 1].0) + (
                seq![':'] + (json_text(fs[e + 1].1) + obj_field_tail(fs, e + 1, rest))));
            }
        }
        i = q4 + 1;
    }
}

/// Parse a complete JSON value: the whole of `s` up to trailing
/// whitespace.  Returns `None` on any syntax error, any number over
/// the `u64` range, or trailing content.  Complete and sound: the
/// canonical text of any value parses to exactly that value, and any
/// accepted text is, between runs of whitespace, a rendering of the
/// value returned.
pub fn parse_json(s: &str) -> (r: Option<Json>)
    ensures
        forall|j: JsonV| s@ == #[trigger] json_text(j) ==> r is Some && (r->Some_0)@ == j,
        r is Some ==> exists|jv: JsonV, a: int, b: int|
            #![trigger value_span(jv, a, b)]
            value_span(jv, a, b) && 0 <= a <= b <= s@.len() && ws_at(s@, 0, a)
                && renders_value_at(s@, a, b, jv) && ws_at(s@, b, s@.len() as int) && jv == (
            r->Some_0)@,
{
    let n = s.unicode_len();
    let res = parse_value(s, n, 0);
    proof {
        assert forall|j: JsonV| s@ == #[trigger] json_text(j) implies res is Some && (res->0).0@
            == j && (res->0).1 == json_text(j).len() by {
            assert(s@.skip(0) =~= json_text(j) + Seq::<char>::empty());
            assert(num_sep(j, Seq::<char>::empty()));
        }
    }
    let Some((v, q)) = res else { return None };
    let q2 = skip_ws(s, n, q);
    if q2 < n {
        return None;
    }
    proof {
        let a = choose|a: int|
            0 <= a <= q && #[trigger] ws_at(s@, 0, a) && renders_value_at(s@, a, q as int, v@);
        assert(0 <= a <= q as int <= s@.len());
        assert(ws_at(s@, q as int, s@.len() as int));
        assert(renders_value_at(s@, a, q as int, v@));
        assert(value_span(v@, a, q as int));
    }
    Some(v)
}

} // verus!
