//! The JSON value model used on the wire, with its canonical text form.
//!
//! Envelopes travel as one JSON object per line.  This module holds the
//! value tree, the specification of its printed text, and the verified
//! printer.  The parser lives in `parse`.

use vstd::prelude::*;

use crate::text::{dec_digit, dec_spec, push_dec};

verus! {

/// A JSON value.  Numbers are unsigned integers: the envelope schema
/// carries no other kind.
pub enum Json {
    Null,
    Bool(bool),
    Num(u64),
    Str(String),
    Arr(Vec<Json>),
    Obj(Vec<(String, Json)>),
}

/// The mathematical shape of a JSON value.
pub enum JsonV {
    Null,
    Bool(bool),
    Num(u64),
    Str(Seq<char>),
    Arr(Seq<JsonV>),
    Obj(Seq<(Seq<char>, JsonV)>),
}

/// The mathematical shape of one JSON value.
pub open spec fn json_view(j: Json) -> JsonV
    decreases j,
{
    match j {
        Json::Null => JsonV::Null,
        Json::Bool(b) => JsonV::Bool(b),
        Json::Num(n) => JsonV::Num(n),
        Json::Str(s) => JsonV::Str(s@),
        Json::Arr(items) => JsonV::Arr(views_of(items@)),
        Json::Obj(fields) => JsonV::Obj(field_views_of(fields@)),
    }
}

/// The shapes of a sequence of JSON values, in order.
pub open spec fn views_of(items: Seq<Json>) -> Seq<JsonV>
    decreases items,
{
    if items.len() == 0 {
        Seq::empty()
    } else {
        seq![json_view(items[0])] + views_of(items.drop_first())
    }
}

/// The shapes of a sequence of object fields, in order.
pub open spec fn field_views_of(fields: Seq<(String, Json)>) -> Seq<(Seq<char>, JsonV)>
    decreases fields,
{
    if fields.len() == 0 {
        Seq::empty()
    } else {
        seq![(fields[0].0@, json_view(fields[0].1))] + field_views_of(fields.drop_first())
    }
}

pub broadcast proof fn lemma_views_of_index(items: Seq<Json>)
    ensures
        #[trigger] views_of(items).len() == items.len(),
        forall|i: int| 0 <= i < items.len() ==> views_of(items)[i] == json_view(items[i]),
    decreases items.len(),
{
    if items.len() > 0 {
        lemma_views_of_index(items.drop_first());
    }
}

pub broadcast proof fn lemma_field_views_of_index(fields: Seq<(String, Json)>)
    ensures
        #[trigger] field_views_of(fields).len() == fields.len(),
        forall|i: int|
            0 <= i < fields.len() ==> field_views_of(fields)[i] == (
                fields[i].0@,
                json_view(fields[i].1),
            ),
    decreases fields.len(),
{
    if fields.len() > 0 {
        lemma_field_views_of_index(fields.drop_first());
    }
}

/// Appending one value extends the sequence of shapes by its shape.
pub broadcast proof fn lemma_views_of_push(items: Seq<Json>, x: Json)
    ensures
        #[trigger] views_of(items.push(x)) == views_of(items) + seq![json_view(x)],
    decreases items.len(),
{
    reveal_with_fuel(views_of, 3);
    if items.len() == 0 {
        assert(items.push(x).drop_first() =~= Seq::<Json>::empty());
        assert(items.push(x)[0] == x);
        assert(views_of(items.push(x)) =~= views_of(items) + seq![json_view(x)]);
    } else {
        lemma_views_of_push(items.drop_first(), x);
        assert(items.push(x).drop_first() =~= items.drop_first().push(x));
        assert(items.push(x)[0] == items[0]);
        assert(views_of(items.push(x)) =~= views_of(items) + seq![json_view(x)]);
    }
}

/// Appending one field extends the sequence of field shapes by its shape.
pub broadcast proof fn lemma_field_views_of_push(fields: Seq<(String, Json)>, x: (String, Json))
    ensures
        #[trigger] field_views_of(fields.push(x)) == field_views_of(fields) + seq![
            (x.0@, json_view(x.1)),
        ],
    decreases fields.len(),
{
    reveal_with_fuel(field_views_of, 3);
    if fields.len() == 0 {
        assert(fields.push(x).drop_first() =~= Seq::<(String, Json)>::empty());
        assert(fields.push(x)[0] == x);
        assert(field_views_of(fields.push(x)) =~= field_views_of(fields) + seq![
            (x.0@, json_view(x.1)),
        ]);
    } else {
        lemma_field_views_of_push(fields.drop_first(), x);
        assert(fields.push(x).drop_first() =~= fields.drop_first().push(x));
        assert(fields.push(x)[0] == fields[0]);
        assert(field_views_of(fields.push(x)) =~= field_views_of(fields) + seq![
            (x.0@, json_view(x.1)),
        ]);
    }
}

impl View for Json {
    type V = JsonV;

    open spec fn view(&self) -> JsonV {
        json_view(*self)
    }
}

/// The first value bound to `key` among `fields`, if any.
pub open spec fn obj_get(fields: Seq<(Seq<char>, JsonV)>, key: Seq<char>) -> Option<JsonV>
    decreases fields.len(),
{
    if fields.len() == 0 {
        Option::None
    } else if fields[0].0 == key {
        Option::Some(fields[0].1)
    } else {
        obj_get(fields.drop_first(), key)
    }
}

/// The character for one hexadecimal digit value.
pub open spec fn hex_digit(d: int) -> char {
    if d < 10 {
        dec_digit(d)
    } else if d == 10 {
        'a'
    } else if d == 11 {
        'b'
    } else if d == 12 {
        'c'
    } else if d == 13 {
        'd'
    } else if d == 14 {
        'e'
    } else {
        'f'
    }
}

/// The printed form of one character inside a JSON string literal.
pub open spec fn esc_char(c: char) -> Seq<char> {
    if c == '"' {
        seq!['\\', '"']
    } else if c == '\\' {
        seq!['\\', '\\']
    } else if c == '\n' {
        seq!['\\', 'n']
    } else if c == '\r' {
        seq!['\\', 'r']
    } else if c == '\t' {
        seq!['\\', 't']
    } else if (c as u32) < 0x20 {
        seq!['\\', 'u', '0', '0', hex_digit(c as u32 as int / 16), hex_digit(c as u32 as int % 16)]
    } else {
        seq![c]
    }
}

/// The printed body of a JSON string literal, quotes not included.
pub open spec fn str_body_text(s: Seq<char>) -> Seq<char>
    decreases s.len(),
{
    if s.len() == 0 {
        Seq::empty()
    } else {
        esc_char(s[0]) + str_body_text(s.drop_first())
    }
}

/// The printed form of a JSON string literal.
pub open spec fn str_text(s: Seq<char>) -> Seq<char> {
    seq!['"'] + str_body_text(s) + seq!['"']
}

/// The canonical printed text of a JSON value: no whitespace, object
/// fields in the order given.
pub open spec fn json_text(v: JsonV) -> Seq<char>
    decreases v,
{
    match v {
        JsonV::Null => seq!['n', 'u', 'l', 'l'],
        JsonV::Bool(b) => if b {
            seq!['t', 'r', 'u', 'e']
        } else {
            seq!['f', 'a', 'l', 's', 'e']
        },
        JsonV::Num(n) => dec_spec(n as nat),
        JsonV::Str(s) => str_text(s),
        JsonV::Arr(items) => seq!['['] + arr_text(items) + seq![']'],
        JsonV::Obj(fields) => seq!['{'] + obj_text(fields) + seq!['}'],
    }
}

/// The comma-separated elements of an array.
pub open spec fn arr_text(items: Seq<JsonV>) -> Seq<char>
    decreases items,
{
    if items.len() == 0 {
        Seq::empty()
    } else if items.len() == 1 {
        json_text(items[0])
    } else {
        json_text(items[0]) + seq![','] + arr_text(items.drop_first())
    }
}

/// The comma-separated `"key":value` fields of an object.
pub open spec fn obj_text(fields: Seq<(Seq<char>, JsonV)>) -> Seq<char>
    decreases fields,
{
    if fields.len() == 0 {
        Seq::empty()
    } else if fields.len() == 1 {
        str_text(fields[0].0) + seq![':'] + json_text(fields[0].1)
    } else {
        str_text(fields[0].0) + seq![':'] + json_text(fields[0].1) + seq![','] + obj_text(
            fields.drop_first(),
        )
    }
}

/// The character for one hexadecimal digit value.
fn hex_digit_str(d: u32) -> (r: &'static str)
    requires
        d < 16,
    ensures
        r@ == seq![hex_digit(d as int)],
{
    proof {
        reveal_strlit("0");
        reveal_strlit("1");
        reveal_strlit("2");
        reveal_strlit("3");
        reveal_strlit("4");
        reveal_strlit("5");
        reveal_strlit("6");
        reveal_strlit("7");
        reveal_strlit("8");
        reveal_strlit("9");
        reveal_strlit("a");
        reveal_strlit("b");
        reveal_strlit("c");
        reveal_strlit("d");
        reveal_strlit("e");
        reveal_strlit("f");
    }
    match d {
        0 => "0",
        1 => "1",
        2 => "2",
        3 => "3",
        4 => "4",
        5 => "5",
        6 => "6",
        7 => "7",
        8 => "8",
        9 => "9",
        10 => "a",
        11 => "b",
        12 => "c",
        13 => "d",
        14 => "e",
        _ => "f",
    }
}

/// Append the escaped form of the single character `s[i]` to `out`.
fn push_esc_char(s: &str, i: usize, out: &mut String)
    requires
        i < s@.len(),
        s@.len() <= usize::MAX,
    ensures
        final(out)@ == old(out)@ + esc_char(s@[i as int]),
{
    let c = s.get_char(i);
    proof {
        reveal_strlit("\\\"");
        reveal_strlit("\\\\");
        reveal_strlit("\\n");
        reveal_strlit("\\r");
        reveal_strlit("\\t");
        reveal_strlit("\\u00");
    }
    if c == '"' {
        out.append("\\\"");
        proof {
            assert(final(out)@ =~= old(out)@ + esc_char(s@[i as int]));
        }
    } else if c == '\\' {
        out.append("\\\\");
        proof {
            assert(final(out)@ =~= old(out)@ + esc_char(s@[i as int]));
        }
    } else if c == '\n' {
        out.append("\\n");
        proof {
            assert(final(out)@ =~= old(out)@ + esc_char(s@[i as int]));
        }
    } else if c == '\r' {
        out.append("\\r");
        proof {
            assert(final(out)@ =~= old(out)@ + esc_char(s@[i as int]));
        }
    } else if c == '\t' {
        out.append("\\t");
        proof {
            assert(final(out)@ =~= old(out)@ + esc_char(s@[i as int]));
        }
    } else if (c as u32) < 0x20 {
        out.append("\\u00");
        out.append(hex_digit_str((c as u32) / 16));
        out.append(hex_digit_str((c as u32) % 16));
        proof {
            assert(final(out)@ =~= old(out)@ + esc_char(s@[i as int]));
        }
    } else {
        out.append(s.substring_char(i, i + 1));
        proof {
            assert(s@.subrange(i as int, i as int + 1) =~= seq![s@[i as int]]);
            assert(final(out)@ =~= old(out)@ + esc_char(s@[i as int]));
        }
    }
}

/// Append the printed form of the string `s` as a JSON literal to `out`.
pub fn push_json_str(s: &str, out: &mut String)
    ensures
        final(out)@ == old(out)@ + str_text(s@),
{
    proof {
        reveal_strlit("\"");
    }
    out.append("\"");
    let n = s.unicode_len();
    let mut i: usize = 0;
    while i < n
        invariant
            0 <= i <= n,
            n == s@.len(),
            out@ == old(out)@ + seq!['"'] + str_body_text(s@.subrange(0, i as int)),
        decreases n - i,
    {
        push_esc_char(s, i, out);
        proof {
            lemma_str_body_snoc(s@, i as int);
        }
        i = i + 1;
    }
    out.append("\"");
    proof {
        assert(s@.subrange(0, n as int) =~= s@);
        assert(final(out)@ =~= old(out)@ + str_text(s@));
    }
}

/// Extending the printed prefix by one source character appends that
/// character's escaped form.
proof fn lemma_str_body_snoc(s: Seq<char>, i: int)
    requires
        0 <= i < s.len(),
    ensures
        str_body_text(s.subrange(0, i + 1)) == str_body_text(s.subrange(0, i)) + esc_char(s[i]),
    decreases i + 1,
{
    let pre = s.subrange(0, i + 1);
    if i == 0 {
        assert(pre.drop_first() =~= Seq::<char>::empty());
        assert(s.subrange(0, 0) =~= Seq::<char>::empty());
        assert(str_body_text(pre) =~= str_body_text(s.subrange(0, 0)) + esc_char(s[0]));
    } else {
        lemma_str_body_snoc(s.drop_first(), i - 1);
        assert(pre.drop_first() =~= s.drop_first().subrange(0, i));
        assert(s.subrange(0, i).drop_first() =~= s.drop_first().subrange(0, i - 1));
        assert(s.drop_first().subrange(0, i - 1 + 1) =~= pre.drop_first());
        assert(str_body_text(pre) =~= str_body_text(s.subrange(0, i)) + esc_char(s[i]));
    }
}

/// Append the canonical printed text of `v` to `out`.
#[verifier::loop_isolation(false)]
#[verifier::rlimit(50)]
pub fn push_json(v: &Json, out: &mut String)
    ensures
        final(out)@ == old(out)@ + json_text(v@),
    decreases v,
{
    match v {
        Json::Null => {
            proof {
                reveal_strlit("null");
            }
            out.append("null");
            proof {
                assert(final(out)@ =~= old(out)@ + json_text(v@));
            }
        },
        Json::Bool(b) => {
            proof {
                reveal_strlit("true");
                reveal_strlit("false");
            }
            if *b {
                out.append("true");
            } else {
                out.append("false");
            }
            proof {
                assert(final(out)@ =~= old(out)@ + json_text(v@));
            }
        },
        Json::Num(n) => {
            push_dec(*n, out);
        },
        Json::Str(s) => {
            push_json_str(s.as_str(), out);
        },
        Json::Arr(items) => {
            proof {
                reveal_strlit("[");
                reveal_strlit("]");
                reveal_strlit(",");
                lemma_views_of_index(items@);
            }
            out.append("[");
            let ghost elems = views_of(items@);
            let n = items.len();
            let mut i: usize = 0;
            while i < n
                invariant
                    0 <= i <= n,
                    n == items@.len(),
                    elems == views_of(items@),
                    elems.len() == n,
                    forall|k: int| 0 <= k < n ==> elems[k] == json_view(items@[k]),
                    out@ == old(out)@ + seq!['['] + arr_text(elems.subrange(0, i as int)),
                decreases n - i,
            {
                if i > 0 {
                    out.append(",");
                }
                proof {
                    assert(decreases_to!(*v => (*v)->Arr_0));
                    assert(decreases_to!(*items => items@));
                    assert(decreases_to!(items@ => items@[i as int]));
                }
                push_json(&items[i], out);
                proof {
                    lemma_arr_snoc(elems, i as int);
                    assert(out@ =~= old(out)@ + seq!['['] + arr_text(
                        elems.subrange(0, i + 1),
                    ));
                }
                i = i + 1;
            }
            out.append("]");
            proof {
                assert(elems.subrange(0, n as int) =~= elems);
                assert(final(out)@ =~= old(out)@ + json_text(v@));
            }
        },
        Json::Obj(fields) => {
            proof {
                reveal_strlit("{");
                reveal_strlit("}");
                reveal_strlit(",");
                reveal_strlit(":");
                lemma_field_views_of_index(fields@);
            }
            out.append("{");
            let ghost elems = field_views_of(fields@);
            let n = fields.len();
            let mut i: usize = 0;
            while i < n
                invariant
                    0 <= i <= n,
                    n == fields@.len(),
                    elems == field_views_of(fields@),
                    elems.len() == n,
                    forall|k: int|
                        0 <= k < n ==> elems[k] == (fields@[k].0@, json_view(fields@[k].1)),
                    out@ == old(out)@ + seq!['{'] + obj_text(elems.subrange(0, i as int)),
                decreases n - i,
            {
                if i > 0 {
                    out.append(",");
                }
                push_json_str(fields[i].0.as_str(), out);
                out.append(":");
                proof {
                    assert(decreases_to!(*v => (*v)->Obj_0));
                    assert(decreases_to!(*fields => fields@));
                    assert(decreases_to!(fields@ => fields@[i as int]));
                    assert(decreases_to!(fields@[i as int] => fields@[i as int].1));
                }
                push_json(&fields[i].1, out);
                proof {
                    lemma_obj_snoc(elems, i as int);
                    assert(out@ =~= old(out)@ + seq!['{'] + obj_text(
                        elems.subrange(0, i + 1),
                    ));
                }
                i = i + 1;
            }
            out.append("}");
            proof {
                assert(elems.subrange(0, n as int) =~= elems);
                assert(final(out)@ =~= old(out)@ + json_text(v@));
            }
        },
    }
}

/// Extending the printed array prefix by one element appends a comma
/// when needed and the element's text.
proof fn lemma_arr_snoc(items: Seq<JsonV>, i: int)
    requires
        0 <= i < items.len(),
    ensures
        arr_text(items.subrange(0, i + 1)) == arr_text(items.subrange(0, i)) + (if i > 0 {
            seq![',']
        } else {
            Seq::<char>::empty()
        }) + json_text(items[i]),
    decreases i + 1,
{
    let pre = items.subrange(0, i + 1);
    if i == 0 {
        assert(pre.len() == 1);
        assert(pre[0] == items[0]);
        assert(items.subrange(0, 0) =~= Seq::<JsonV>::empty());
        assert(arr_text(pre) =~= arr_text(items.subrange(0, 0)) + Seq::<char>::empty()
            + json_text(items[0]));
    } else {
        lemma_arr_snoc(items.drop_first(), i - 1);
        assert(pre.drop_first() =~= items.drop_first().subrange(0, i));
        assert(items.subrange(0, i).drop_first() =~= items.drop_first().subrange(0, i - 1));
        assert(items.drop_first().subrange(0, i - 1 + 1) =~= pre.drop_first());
        assert(items.drop_first()[i - 1] == items[i]);
        assert(arr_text(pre) =~= arr_text(items.subrange(0, i)) + seq![','] + json_text(items[i]));
    }
}

/// Extending the printed object prefix by one field appends a comma
/// when needed and the field's text.
proof fn lemma_obj_snoc(fields: Seq<(Seq<char>, JsonV)>, i: int)
    requires
        0 <= i < fields.len(),
    ensures
        obj_text(fields.subrange(0, i + 1)) == obj_text(fields.subrange(0, i)) + (if i > 0 {
            seq![',']
        } else {
            Seq::<char>::empty()
        }) + str_text(fields[i].0) + seq![':'] + json_text(fields[i].1),
    decreases i + 1,
{
    let pre = fields.subrange(0, i + 1);
    if i == 0 {
        assert(pre.len() == 1);
        assert(pre[0] == fields[0]);
        assert(fields.subrange(0, 0) =~= Seq::<(Seq<char>, JsonV)>::empty());
        assert(obj_text(pre) =~= obj_text(fields.subrange(0, 0)) + Seq::<char>::empty()
            + str_text(fields[0].0) + seq![':'] + json_text(fields[0].1));
    } else {
        lemma_obj_snoc(fields.drop_first(), i - 1);
        assert(pre.drop_first() =~= fields.drop_first().subrange(0, i));
        assert(fields.subrange(0, i).drop_first() =~= fields.drop_first().subrange(0, i - 1));
        assert(fields.drop_first().subrange(0, i - 1 + 1) =~= pre.drop_first());
        assert(fields.drop_first()[i - 1] == fields[i]);
        assert(obj_text(pre) =~= obj_text(fields.subrange(0, i)) + seq![','] + str_text(
            fields[i].0,
        ) + seq![':'] + json_text(fields[i].1));
    }
}

/// The canonical printed text of `v` as an owned string.
pub fn json_to_string(v: &Json) -> (s: String)
    ensures
        s@ == json_text(v@),
{
    let mut s = String::new();
    push_json(v, &mut s);
    proof {
        assert(s@ =~= json_text(v@));
    }
    s
}


/// Whether a piece of text is free of line breaks.
pub open spec fn no_newline(s: Seq<char>) -> bool {
    forall|i: int| 0 <= i < s.len() ==> (#[trigger] s[i]) != '\n'
}

/// The escaped form of any character is free of line breaks.
proof fn lemma_esc_char_no_newline(c: char)
    ensures
        no_newline(esc_char(c)),
{
}

/// The printed body of a string literal is free of line breaks.
proof fn lemma_str_body_no_newline(s: Seq<char>)
    ensures
        no_newline(str_body_text(s)),
    decreases s.len(),
{
    if s.len() > 0 {
        lemma_esc_char_no_newline(s[0]);
        lemma_str_body_no_newline(s.drop_first());
        assert forall|i: int| 0 <= i < str_body_text(s).len() implies (
        #[trigger] str_body_text(s)[i]) != '\n' by {
            if i < esc_char(s[0]).len() {
                assert(str_body_text(s)[i] == esc_char(s[0])[i]);
            } else {
                assert(str_body_text(s)[i] == str_body_text(s.drop_first())[i - esc_char(
                    s[0],
                ).len()]);
            }
        }
    }
}

/// Decimal text is free of line breaks.
proof fn lemma_dec_no_newline(n: nat)
    ensures
        no_newline(dec_spec(n)),
    decreases n,
{
    if n >= 10 {
        lemma_dec_no_newline(n / 10);
    }
}

/// The canonical printed text of any JSON value is free of line
/// breaks: every control character inside a string is escaped, and the
/// grammar's own characters are never line breaks.  One envelope can
/// therefore never span or share a line.
pub proof fn lemma_json_text_no_newline(v: JsonV)
    ensures
        no_newline(json_text(v)),
    decreases v,
{
    match v {
        JsonV::Null => {},
        JsonV::Bool(b) => {},
        JsonV::Num(n) => {
            lemma_dec_no_newline(n as nat);
        },
        JsonV::Str(s) => {
            lemma_str_body_no_newline(s);
        },
        JsonV::Arr(items) => {
            lemma_arr_text_no_newline(items);
        },
        JsonV::Obj(fields) => {
            lemma_obj_text_no_newline(fields);
        },
    }
}

/// The printed elements of an array are free of line breaks.
proof fn lemma_arr_text_no_newline(items: Seq<JsonV>)
    ensures
        no_newline(arr_text(items)),
    decreases items,
{
    if items.len() == 1 {
        lemma_json_text_no_newline(items[0]);
    } else if items.len() > 1 {
        lemma_json_text_no_newline(items[0]);
        lemma_arr_text_no_newline(items.drop_first());
    }
}

/// The printed fields of an object are free of line breaks.
proof fn lemma_obj_text_no_newline(fields: Seq<(Seq<char>, JsonV)>)
    ensures
        no_newline(obj_text(fields)),
    decreases fields,
{
    if fields.len() == 1 {
        lemma_str_body_no_newline(fields[0].0);
        lemma_json_text_no_newline(fields[0].1);
    } else if fields.len() > 1 {
        lemma_str_body_no_newline(fields[0].0);
        lemma_json_text_no_newline(fields[0].1);
        lemma_obj_text_no_newline(fields.drop_first());
    }
}


/// The printed body splits at any boundary of the source string.
pub proof fn lemma_str_body_split(t: Seq<char>, k: int)
    requires
        0 <= k <= t.len(),
    ensures
        str_body_text(t) == str_body_text(t.take(k)) + str_body_text(t.skip(k)),
    decreases k,
{
    if k == 0 {
        assert(t.take(0) =~= Seq::<char>::empty());
        assert(t.skip(0) =~= t);
        assert(str_body_text(t) =~= str_body_text(t.take(0)) + str_body_text(t.skip(0)));
    } else {
        lemma_str_body_split(t.drop_first(), k - 1);
        assert(t.take(k).drop_first() =~= t.drop_first().take(k - 1));
        assert(t.take(k)[0] == t[0]);
        assert(t.drop_first().skip(k - 1) =~= t.skip(k));
        assert(str_body_text(t) =~= str_body_text(t.take(k)) + str_body_text(t.skip(k)));
    }
}

/// The shape of one escaped character: never empty, never opening with
/// a quote, opening with a backslash exactly for the escaped class, and
/// each second character telling the source character apart.
pub proof fn lemma_esc_char_shape(c: char)
    ensures
        esc_char(c).len() == 1 || esc_char(c).len() == 2 || esc_char(c).len() == 6,
        esc_char(c)[0] != '"',
        esc_char(c)[0] == '\\' <==> (c == '"' || c == '\\' || (c as u32) < 0x20),
        esc_char(c).len() == 1 ==> esc_char(c)[0] == c,
        esc_char(c).len() >= 2 ==> {
            &&& (esc_char(c)[1] == '"' <==> c == '"')
            &&& (esc_char(c)[1] == '\\' <==> c == '\\')
            &&& (esc_char(c)[1] == 'n' <==> c == '\n')
            &&& (esc_char(c)[1] == 'r' <==> c == '\r')
            &&& (esc_char(c)[1] == 't' <==> c == '\t')
            &&& (esc_char(c)[1] == 'u' <==> ((c as u32) < 0x20 && c != '\n' && c != '\r' && c
                != '\t'))
        },
        esc_char(c).len() == 2 ==> (esc_char(c)[1] == '"' || esc_char(c)[1] == '\\' || esc_char(
            c,
        )[1] == 'n' || esc_char(c)[1] == 'r' || esc_char(c)[1] == 't'),
        esc_char(c).len() == 6 ==> esc_char(c)[1] == 'u',
        esc_char(c).len() == 6 ==> esc_char(c) == seq![
            '\\',
            'u',
            '0',
            '0',
            hex_digit(c as u32 as int / 16),
            hex_digit(c as u32 as int % 16),
        ] && (c as u32) < 0x20,
{
}

/// The first character of a value's printed text tells its kind apart;
/// it is never whitespace, a quote closer, a comma, a colon, or a
/// closing bracket.
pub proof fn lemma_json_text_head(v: JsonV)
    ensures
        json_text(v).len() >= 1,
        v is Null ==> json_text(v)[0] == 'n',
        v is Bool && v->Bool_0 == true ==> json_text(v)[0] == 't',
        v is Bool && v->Bool_0 == false ==> json_text(v)[0] == 'f',
        v is Num ==> crate::text::is_dec_digit(json_text(v)[0]),
        v is Str ==> json_text(v)[0] == '"',
        v is Arr ==> json_text(v)[0] == '[',
        v is Obj ==> json_text(v)[0] == '{',
{
    match v {
        JsonV::Num(nv) => {
            crate::text::lemma_dec_spec_value(nv as nat);
        },
        JsonV::Str(t) => {
            assert(json_text(v)[0] == '"');
        },
        _ => {},
    }
}

} // verus!
