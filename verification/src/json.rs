//! A small JSON model for the tagged-object notation.
//!
//! Values keep numbers as their written lexeme, so no floating point
//! enters the model; typed field decoding converts lexemes on demand.
//! The printer emits the compact canonical form (no whitespace, keys in
//! construction order); the parser accepts standard punctuation with
//! whitespace between tokens.

use vstd::prelude::*;
use crate::text::{is_digit_char, string_of_chars, str_chars, chars_sub};

verus! {

/// A JSON value.  A number is kept as its decimal lexeme.
#[derive(Debug)]
pub enum JsonValue {
    Null,
    Bool(bool),
    Num(String),
    Str(String),
    Arr(Vec<JsonValue>),
    Obj(Vec<JsonMember>),
}

/// One member of a JSON object.
#[derive(Debug)]
pub struct JsonMember {
    pub key: String,
    pub value: JsonValue,
}

/// The mathematical shadow of `JsonValue`.
pub enum JsonV {
    Null,
    Bool(bool),
    Num(Seq<char>),
    Str(Seq<char>),
    Arr(Seq<JsonV>),
    Obj(Seq<(Seq<char>, JsonV)>),
}

/// The mathematical value of an exec JSON value.
pub open spec fn jv_of(v: JsonValue) -> JsonV
    decreases v,
{
    match v {
        JsonValue::Null => JsonV::Null,
        JsonValue::Bool(b) => JsonV::Bool(b),
        JsonValue::Num(s) => JsonV::Num(s@),
        JsonValue::Str(s) => JsonV::Str(s@),
        JsonValue::Arr(items) => JsonV::Arr(arr_of(items@, 0)),
        JsonValue::Obj(fields) => JsonV::Obj(obj_of(fields@, 0)),
    }
}

/// The mathematical values of the elements from `k` on.
pub open spec fn arr_of(items: Seq<JsonValue>, k: int) -> Seq<JsonV>
    decreases items, items.len() - k when 0 <= k
{
    if k >= items.len() {
        Seq::empty()
    } else {
        seq![jv_of(items[k])] + arr_of(items, k + 1)
    }
}

/// The mathematical members from `k` on.
pub open spec fn obj_of(fields: Seq<JsonMember>, k: int) -> Seq<(Seq<char>, JsonV)>
    decreases fields, fields.len() - k when 0 <= k
{
    if k >= fields.len() {
        Seq::empty()
    } else {
        seq![(fields[k].key@, jv_of(fields[k].value))] + obj_of(fields, k + 1)
    }
}

pub proof fn lemma_arr_of(items: Seq<JsonValue>, k: int)
    requires
        0 <= k <= items.len(),
    ensures
        arr_of(items, k).len() == items.len() - k,
        forall|i: int| 0 <= i < items.len() - k ==> #[trigger] arr_of(items, k)[i] == jv_of(
            items[k + i],
        ),
    decreases items.len() - k,
{
    if k < items.len() {
        lemma_arr_of(items, k + 1);
        assert forall|i: int| 0 <= i < items.len() - k implies #[trigger] arr_of(items, k)[i]
            == jv_of(items[k + i]) by {
            if i > 0 {
                assert(arr_of(items, k)[i] == arr_of(items, k + 1)[i - 1]);
            }
        }
    }
}

pub proof fn lemma_obj_of(fields: Seq<JsonMember>, k: int)
    requires
        0 <= k <= fields.len(),
    ensures
        obj_of(fields, k).len() == fields.len() - k,
        forall|i: int| 0 <= i < fields.len() - k ==> #[trigger] obj_of(fields, k)[i] == (
            fields[k + i].key@,
            jv_of(fields[k + i].value),
        ),
    decreases fields.len() - k,
{
    if k < fields.len() {
        lemma_obj_of(fields, k + 1);
        assert forall|i: int| 0 <= i < fields.len() - k implies #[trigger] obj_of(fields, k)[i]
            == (fields[k + i].key@, jv_of(fields[k + i].value)) by {
            if i > 0 {
                assert(obj_of(fields, k)[i] == obj_of(fields, k + 1)[i - 1]);
            }
        }
    }
}

impl View for JsonValue {
    type V = JsonV;

    open spec fn view(&self) -> JsonV {
        jv_of(*self)
    }
}

// ------------------------------------------------------------------
// Printing: the compact canonical form
// ------------------------------------------------------------------

/// One hexadecimal digit, lower case.
pub open spec fn hex_digit_char(d: int) -> char {
    if d < 10 {
        ((48 + d) as u8) as char
    } else {
        ((87 + d) as u8) as char
    }
}

/// The value of a hexadecimal digit, or `-1`.
pub open spec fn hex_val(c: char) -> int {
    if ('0' as u32) <= (c as u32) <= ('9' as u32) {
        (c as u32) - 48
    } else if ('a' as u32) <= (c as u32) <= ('f' as u32) {
        (c as u32) - 87
    } else if ('A' as u32) <= (c as u32) <= ('F' as u32) {
        (c as u32) - 55
    } else {
        -1
    }
}

/// The value of the four hexadecimal digits at `i`, or `-1`.
pub open spec fn hex4_val(s: Seq<char>, i: int) -> int {
    if 0 <= i && i + 4 <= s.len() && hex_val(s[i]) >= 0 && hex_val(s[i + 1]) >= 0 && hex_val(
        s[i + 2],
    ) >= 0 && hex_val(s[i + 3]) >= 0 {
        ((hex_val(s[i]) * 16 + hex_val(s[i + 1])) * 16 + hex_val(s[i + 2])) * 16 + hex_val(
            s[i + 3],
        )
    } else {
        -1
    }
}

pub proof fn lemma_hex_digit_char(d: int)
    requires
        0 <= d < 16,
    ensures
        hex_val(hex_digit_char(d)) == d,
{
    if d < 10 {
        assert((48 + d) as u8 == 48 + d);
        assert((hex_digit_char(d)) as u32 == 48 + d);
    } else {
        assert((87 + d) as u8 == 87 + d);
        assert((hex_digit_char(d)) as u32 == 87 + d);
    }
}

/// The escaped form of one character inside a JSON string literal: the
/// short escapes where they exist, `\u00XX` for the other control
/// characters, the character itself otherwise.
pub open spec fn json_escape_char(c: char) -> Seq<char> {
    if c == '"' {
        seq!['\\', '"']
    } else if c == '\\' {
        seq!['\\', '\\']
    } else if c == '\n' {
        seq!['\\', 'n']
    } else if c == '\t' {
        seq!['\\', 't']
    } else if c == '\r' {
        seq!['\\', 'r']
    } else if c == '\u{0008}' {
        seq!['\\', 'b']
    } else if c == '\u{000C}' {
        seq!['\\', 'f']
    } else if (c as u32) < 32 {
        seq![
            '\\',
            'u',
            '0',
            '0',
            hex_digit_char((c as u32) as int / 16),
            hex_digit_char((c as u32) as int % 16),
        ]
    } else {
        seq![c]
    }
}

pub open spec fn json_escape(s: Seq<char>) -> Seq<char>
    decreases s.len(),
{
    if s.len() == 0 {
        Seq::empty()
    } else {
        json_escape_char(s[0]) + json_escape(s.skip(1))
    }
}

/// A string literal: quotes around the escaped content.
pub open spec fn print_string(s: Seq<char>) -> Seq<char> {
    seq!['"'] + json_escape(s) + seq!['"']
}

/// The compact text of a value.
pub open spec fn print_jv(v: JsonV) -> Seq<char>
    decreases v,
{
    match v {
        JsonV::Null => seq!['n', 'u', 'l', 'l'],
        JsonV::Bool(b) => if b {
            seq!['t', 'r', 'u', 'e']
        } else {
            seq!['f', 'a', 'l', 's', 'e']
        },
        JsonV::Num(lex) => lex,
        JsonV::Str(s) => print_string(s),
        JsonV::Arr(items) => seq!['['] + print_items(items, 0) + seq![']'],
        JsonV::Obj(fields) => seq!['{'] + print_fields(fields, 0) + seq!['}'],
    }
}

/// Array elements from `k` on, joined with commas.
pub open spec fn print_items(items: Seq<JsonV>, k: int) -> Seq<char>
    decreases items, items.len() - k when 0 <= k
{
    if k >= items.len() {
        Seq::empty()
    } else {
        let head = print_jv(items[k]);
        if k + 1 < items.len() {
            head + seq![','] + print_items(items, k + 1)
        } else {
            head
        }
    }
}

/// Object members from `k` on, joined with commas.
pub open spec fn print_fields(fields: Seq<(Seq<char>, JsonV)>, k: int) -> Seq<char>
    decreases fields, fields.len() - k when 0 <= k
{
    if k >= fields.len() {
        Seq::empty()
    } else {
        let head = print_string(fields[k].0) + seq![':'] + print_jv(fields[k].1);
        if k + 1 < fields.len() {
            head + seq![','] + print_fields(fields, k + 1)
        } else {
            head
        }
    }
}

/// Appends the escaped form of the characters of `v` to `out`.
fn push_json_escaped(out: &mut Vec<char>, v: &Vec<char>)
    ensures
        final(out)@ == old(out)@ + json_escape(v@),
{
    let mut i: usize = 0;
    proof {
        assert(v@.skip(0) =~= v@);
        assert(old(out)@ + Seq::<char>::empty() =~= old(out)@);
    }
    while i < v.len()
        invariant
            i <= v@.len(),
            out@ + json_escape(v@.skip(i as int)) == old(out)@ + json_escape(v@),
        decreases v.len() - i,
    {
        let c = v[i];
        if c == '"' {
            out.push('\\');
            out.push('"');
        } else if c == '\\' {
            out.push('\\');
            out.push('\\');
        } else if c == '\n' {
            out.push('\\');
            out.push('n');
        } else if c == '\t' {
            out.push('\\');
            out.push('t');
        } else if c == '\r' {
            out.push('\\');
            out.push('r');
        } else if c == '\u{0008}' {
            out.push('\\');
            out.push('b');
        } else if c == '\u{000C}' {
            out.push('\\');
            out.push('f');
        } else if (c as u32) < 32 {
            let u = c as u32;
            out.push('\\');
            out.push('u');
            out.push('0');
            out.push('0');
            out.push(hex_digit(u / 16));
            out.push(hex_digit(u % 16));
        } else {
            out.push(c);
        }
        proof {
            assert(v@.skip(i as int).skip(1) =~= v@.skip(i + 1));
            assert(out@ + json_escape(v@.skip(i + 1)) =~= old(out)@ + json_escape(v@));
        }
        i = i + 1;
    }
    proof {
        assert(json_escape(v@.skip(v@.len() as int)) =~= Seq::<char>::empty());
        assert(out@ =~= old(out)@ + json_escape(v@));
    }
}

/// One hexadecimal digit, lower case.
fn hex_digit(d: u32) -> (c: char)
    requires
        d < 16,
    ensures
        c == hex_digit_char(d as int),
{
    if d < 10 {
        ((48 + d) as u8) as char
    } else {
        ((87 + d) as u8) as char
    }
}

/// Appends a quoted, escaped string literal to `out`.
fn push_json_string(out: &mut Vec<char>, s: &str)
    ensures
        final(out)@ == old(out)@ + print_string(s@),
{
    out.push('"');
    let v = str_chars(s);
    push_json_escaped(out, &v);
    out.push('"');
    proof {
        assert(out@ =~= old(out)@ + print_string(s@));
    }
}

/// Appends the compact text of `v` to `out`.
pub fn push_json_value(v: &JsonValue, out: &mut Vec<char>)
    ensures
        final(out)@ == old(out)@ + print_jv(v@),
    decreases v,
{
    match v {
        JsonValue::Null => {
            out.push('n');
            out.push('u');
            out.push('l');
            out.push('l');
            proof {
                assert(out@ =~= old(out)@ + print_jv(v@));
            }
        }
        JsonValue::Bool(b) => {
            if *b {
                out.push('t');
                out.push('r');
                out.push('u');
                out.push('e');
            } else {
                out.push('f');
                out.push('a');
                out.push('l');
                out.push('s');
                out.push('e');
            }
            proof {
                assert(out@ =~= old(out)@ + print_jv(v@));
            }
        }
        JsonValue::Num(lex) => {
            let lv = str_chars(lex.as_str());
            crate::message::cq_code::push_all(out, &lv);
        }
        JsonValue::Str(s) => {
            push_json_string(out, s.as_str());
        }
        JsonValue::Arr(items) => {
            let ghost iv = v@->Arr_0;
            out.push('[');
            let ghost head = out@;
            let mut k: usize = 0;
            proof {
                assert(out@.skip(head.len() as int) =~= Seq::<char>::empty());
                lemma_arr_of(items@, 0);
            }
            while k < items.len()
                invariant
                    *v == JsonValue::Arr(*items),
                    k <= items@.len(),
                    iv == v@->Arr_0,
                    iv.len() == items@.len(),
                    forall|i: int| 0 <= i < items@.len() ==> #[trigger] iv[i] == jv_of(items@[i]),
                    head.len() <= out@.len(),
                    out@ == head + out@.skip(head.len() as int),
                    k == 0 ==> out@ == head,
                    0 < k < items@.len() ==> print_items(iv, 0) == out@.skip(head.len() as int)
                        + seq![','] + print_items(iv, k as int),
                    k == items@.len() ==> print_items(iv, 0) == out@.skip(head.len() as int),
                decreases items@.len() - k,
            {
                let ghost done = out@.skip(head.len() as int);
                if k > 0 {
                    out.push(',');
                }
                proof {
                    assert(decreases_to!(v => *items));
                    assert(decreases_to!(*items => items@[k as int]));
                }
                push_json_value(&items[k], out);
                proof {
                    assert(jv_of(items@[k as int]) == iv[k as int]);
                    let done2 = out@.skip(head.len() as int);
                    if k == 0 {
                        assert(done2 =~= print_jv(iv[0]));
                        if 1 < iv.len() {
                            assert(print_items(iv, 0) == print_jv(iv[0]) + seq![','] + print_items(
                                iv,
                                1,
                            ));
                            assert(print_items(iv, 0) =~= done2 + seq![','] + print_items(iv, 1));
                        } else {
                            assert(print_items(iv, 0) =~= done2);
                        }
                    } else {
                        assert(done2 =~= done + seq![','] + print_jv(iv[k as int]));
                        if k + 1 < iv.len() {
                            assert(print_items(iv, k as int) == print_jv(iv[k as int]) + seq![',']
                                + print_items(iv, k + 1));
                            assert(print_items(iv, 0) =~= done2 + seq![','] + print_items(
                                iv,
                                k + 1,
                            ));
                        } else {
                            assert(print_items(iv, k as int) == print_jv(iv[k as int]));
                            assert(print_items(iv, 0) =~= done2);
                        }
                    }
                    assert(out@ =~= head + out@.skip(head.len() as int));
                }
                k = k + 1;
            }
            proof {
                if iv.len() == 0 {
                    assert(print_items(iv, 0) =~= out@.skip(head.len() as int));
                }
            }
            out.push(']');
            proof {
                assert(out@ =~= old(out)@ + print_jv(v@));
            }
        }
        JsonValue::Obj(fields) => {
            let ghost fv = v@->Obj_0;
            out.push('{');
            let ghost head = out@;
            let mut k: usize = 0;
            proof {
                assert(out@.skip(head.len() as int) =~= Seq::<char>::empty());
                lemma_obj_of(fields@, 0);
            }
            while k < fields.len()
                invariant
                    *v == JsonValue::Obj(*fields),
                    k <= fields@.len(),
                    fv == v@->Obj_0,
                    fv.len() == fields@.len(),
                    forall|i: int| 0 <= i < fields@.len() ==> #[trigger] fv[i] == (
                        fields@[i].key@,
                        jv_of(fields@[i].value),
                    ),
                    head.len() <= out@.len(),
                    out@ == head + out@.skip(head.len() as int),
                    k == 0 ==> out@ == head,
                    0 < k < fields@.len() ==> print_fields(fv, 0) == out@.skip(head.len() as int)
                        + seq![','] + print_fields(fv, k as int),
                    k == fields@.len() ==> print_fields(fv, 0) == out@.skip(head.len() as int),
                decreases fields@.len() - k,
            {
                let ghost done = out@.skip(head.len() as int);
                if k > 0 {
                    out.push(',');
                }
                push_json_string(out, fields[k].key.as_str());
                out.push(':');
                proof {
                    assert(decreases_to!(v => *fields));
                    assert(decreases_to!(*fields => fields@[k as int]));
                    assert(decreases_to!(fields@[k as int] => fields@[k as int].value));
                }
                push_json_value(&fields[k].value, out);
                proof {
                    assert(jv_of(fields@[k as int].value) == fv[k as int].1);
                    assert(fields@[k as int].key@ == fv[k as int].0);
                    let memb = print_string(fv[k as int].0) + seq![':'] + print_jv(fv[k as int].1);
                    let done2 = out@.skip(head.len() as int);
                    if k == 0 {
                        assert(done2 =~= memb);
                        if 1 < fv.len() {
                            assert(print_fields(fv, 0) == memb + seq![','] + print_fields(fv, 1));
                            assert(print_fields(fv, 0) =~= done2 + seq![','] + print_fields(fv, 1));
                        } else {
                            assert(print_fields(fv, 0) =~= done2);
                        }
                    } else {
                        assert(done2 =~= done + seq![','] + memb);
                        if k + 1 < fv.len() {
                            assert(print_fields(fv, k as int) == memb + seq![','] + print_fields(
                                fv,
                                k + 1,
                            ));
                            assert(print_fields(fv, 0) =~= done2 + seq![','] + print_fields(
                                fv,
                                k + 1,
                            ));
                        } else {
                            assert(print_fields(fv, k as int) == memb);
                            assert(print_fields(fv, 0) =~= done2);
                        }
                    }
                    assert(out@ =~= head + out@.skip(head.len() as int));
                }
                k = k + 1;
            }
            proof {
                if fv.len() == 0 {
                    assert(print_fields(fv, 0) =~= out@.skip(head.len() as int));
                }
            }
            out.push('}');
            proof {
                assert(out@ =~= old(out)@ + print_jv(v@));
            }
        }
    }
}

/// A quoted, escaped JSON string literal, as a string.
pub fn json_string_text(s: &str) -> (r: String)
    ensures
        r@ == print_string(s@),
{
    let mut out: Vec<char> = Vec::new();
    push_json_string(&mut out, s);
    string_of_chars(&out)
}

/// The compact text of a value, as a string.
pub fn json_value_text(v: &JsonValue) -> (r: String)
    ensures
        r@ == print_jv(v@),
{
    let mut out: Vec<char> = Vec::new();
    push_json_value(v, &mut out);
    string_of_chars(&out)
}

// ------------------------------------------------------------------
// Parsing: standard punctuation, whitespace tolerated between tokens
// ------------------------------------------------------------------

pub open spec fn is_ws(c: char) -> bool {
    c == ' ' || c == '\t' || c == '\n' || c == '\r'
}

/// The first position at or after `i` whose character is not whitespace.
pub open spec fn ws_run_end(s: Seq<char>, i: int) -> int
    decreases s.len() - i when 0 <= i <= s.len()
{
    if i < s.len() && is_ws(s[i]) {
        ws_run_end(s, i + 1)
    } else {
        i
    }
}

pub proof fn lemma_ws_run_bounds(s: Seq<char>, i: int)
    requires
        0 <= i <= s.len(),
    ensures
        i <= ws_run_end(s, i) <= s.len(),
        ws_run_end(s, i) < s.len() ==> !is_ws(s[ws_run_end(s, i)]),
    decreases s.len() - i,
{
    if i < s.len() && is_ws(s[i]) {
        lemma_ws_run_bounds(s, i + 1);
    }
}

/// The first position at or after `i` whose character is not a digit.
pub open spec fn digit_run_end(s: Seq<char>, i: int) -> int
    decreases s.len() - i when 0 <= i <= s.len()
{
    if i < s.len() && is_digit_char(s[i]) {
        digit_run_end(s, i + 1)
    } else {
        i
    }
}

pub proof fn lemma_digit_run_bounds(s: Seq<char>, i: int)
    requires
        0 <= i <= s.len(),
    ensures
        i <= digit_run_end(s, i) <= s.len(),
        forall|t: int| i <= t < digit_run_end(s, i) ==> is_digit_char(#[trigger] s[t]),
        digit_run_end(s, i) < s.len() ==> !is_digit_char(s[digit_run_end(s, i)]),
    decreases s.len() - i,
{
    if i < s.len() && is_digit_char(s[i]) {
        lemma_digit_run_bounds(s, i + 1);
    }
}

pub proof fn lemma_digit_run_exact(s: Seq<char>, i: int, j: int)
    requires
        0 <= i <= j <= s.len(),
        forall|t: int| i <= t < j ==> is_digit_char(#[trigger] s[t]),
        j == s.len() || !is_digit_char(s[j]),
    ensures
        digit_run_end(s, i) == j,
    decreases j - i,
{
    if i < j {
        lemma_digit_run_exact(s, i + 1, j);
    }
}

/// The end of the number lexeme starting at `i`, per the JSON grammar:
/// an optional minus, digits, an optional fraction, an optional
/// exponent.  `None` when no number starts there.
pub open spec fn num_end(s: Seq<char>, i: int) -> Option<int> {
    if !(0 <= i < s.len()) {
        None
    } else {
        let ms = if s[i] == '-' {
            i + 1
        } else {
            i
        };
        if !(ms <= s.len()) {
            None
        } else {
            let de = digit_run_end(s, ms);
            if de == ms {
                None
            } else {
                let fe = if de < s.len() && s[de] == '.' {
                    digit_run_end(s, de + 1)
                } else {
                    de
                };
                if de < s.len() && s[de] == '.' && fe == de + 1 {
                    None
                } else {
                    if fe < s.len() && (s[fe] == 'e' || s[fe] == 'E') {
                        let sp = if fe + 1 < s.len() && (s[fe + 1] == '+' || s[fe + 1] == '-') {
                            fe + 2
                        } else {
                            fe + 1
                        };
                        if !(sp <= s.len()) {
                            None
                        } else {
                            let ge = digit_run_end(s, sp);
                            if ge == sp {
                                None
                            } else {
                                Some(ge)
                            }
                        }
                    } else {
                        Some(fe)
                    }
                }
            }
        }
    }
}

pub proof fn lemma_num_end_bounds(s: Seq<char>, i: int)
    ensures
        num_end(s, i) matches Some(e) ==> i < e <= s.len(),
{
    if 0 <= i < s.len() {
        let ms = if s[i] == '-' {
            i + 1
        } else {
            i
        };
        lemma_digit_run_bounds(s, ms);
        let de = digit_run_end(s, ms);
        if de != ms {
            if de < s.len() && s[de] == '.' {
                lemma_digit_run_bounds(s, de + 1);
            }
            let fe = if de < s.len() && s[de] == '.' {
                digit_run_end(s, de + 1)
            } else {
                de
            };
            if 0 <= fe <= s.len() && fe < s.len() && (s[fe] == 'e' || s[fe] == 'E') {
                let sp = if fe + 1 < s.len() && (s[fe + 1] == '+' || s[fe + 1] == '-') {
                    fe + 2
                } else {
                    fe + 1
                };
                if sp <= s.len() {
                    lemma_digit_run_bounds(s, sp);
                }
            }
        }
    }
}

/// The decoded content and end position of a string literal's body
/// (the opening quote already consumed).  Supports the short escapes
/// and `\u` escapes, surrogate pairs included; a lone surrogate or an
/// unterminated literal is a failure.
pub open spec fn parse_str_body(s: Seq<char>, i: int) -> Option<(Seq<char>, int)>
    decreases s.len() - i when 0 <= i <= s.len()
{
    if i >= s.len() {
        None
    } else if s[i] == '"' {
        Some((Seq::empty(), i + 1))
    } else if s[i] == '\\' {
        if i + 1 >= s.len() {
            None
        } else {
            let c = s[i + 1];
            if c == '"' || c == '\\' || c == '/' || c == 'n' || c == 't' || c == 'r' || c == 'b'
                || c == 'f' {
                let d = if c == '"' {
                    '"'
                } else if c == '\\' {
                    '\\'
                } else if c == '/' {
                    '/'
                } else if c == 'n' {
                    '\n'
                } else if c == 't' {
                    '\t'
                } else if c == 'r' {
                    '\r'
                } else if c == 'b' {
                    '\u{0008}'
                } else {
                    '\u{000C}'
                };
                match parse_str_body(s, i + 2) {
                    Some((rest, p)) => Some((seq![d] + rest, p)),
                    None => None,
                }
            } else if c == 'u' {
                if i + 6 > s.len() {
                    None
                } else {
                    let v = hex4_val(s, i + 2);
                    if v < 0 {
                        None
                    } else if 0xD800 <= v <= 0xDBFF {
                        // A high surrogate must pair with a low one.
                        if i + 12 <= s.len() && s[i + 6] == '\\' && s[i + 7] == 'u' {
                            let w = hex4_val(s, i + 8);
                            if 0xDC00 <= w <= 0xDFFF {
                                let cp = 0x10000 + (v - 0xD800) * 0x400 + (w - 0xDC00);
                                match parse_str_body(s, i + 12) {
                                    Some((rest, p)) => Some((seq![cp as char] + rest, p)),
                                    None => None,
                                }
                            } else {
                                None
                            }
                        } else {
                            None
                        }
                    } else if 0xDC00 <= v <= 0xDFFF {
                        None
                    } else {
                        match parse_str_body(s, i + 6) {
                            Some((rest, p)) => Some((seq![v as char] + rest, p)),
                            None => None,
                        }
                    }
                }
            } else {
                None
            }
        }
    } else {
        match parse_str_body(s, i + 1) {
            Some((rest, p)) => Some((seq![s[i]] + rest, p)),
            None => None,
        }
    }
}

pub proof fn lemma_parse_str_body_bounds(s: Seq<char>, i: int)
    requires
        0 <= i <= s.len(),
    ensures
        parse_str_body(s, i) matches Some((txt, p)) ==> i < p <= s.len(),
    decreases s.len() - i,
{
    if i < s.len() {
        if i + 1 <= s.len() {
            lemma_parse_str_body_bounds(s, i + 1);
        }
        if i + 2 <= s.len() {
            lemma_parse_str_body_bounds(s, i + 2);
        }
        if i + 6 <= s.len() {
            lemma_parse_str_body_bounds(s, i + 6);
        }
        if i + 12 <= s.len() {
            lemma_parse_str_body_bounds(s, i + 12);
        }
    }
}

/// The value starting at or after `i` (leading whitespace skipped) and
/// the position just past it.
pub open spec fn parse_value(s: Seq<char>, i: int) -> Option<(JsonV, int)>
    decreases s.len() - i, 0int when 0 <= i <= s.len()
{
    let j = ws_run_end(s, i);
    proof {
        lemma_ws_run_bounds(s, i);
    }
    if j >= s.len() {
        None
    } else {
        let c = s[j];
        if c == '{' {
            let k = ws_run_end(s, j + 1);
            proof {
                lemma_ws_run_bounds(s, j + 1);
            }
            if k < s.len() && s[k] == '}' {
                Some((JsonV::Obj(Seq::empty()), k + 1))
            } else {
                match parse_members(s, j + 1) {
                    Some((fs, p)) => Some((JsonV::Obj(fs), p)),
                    None => None,
                }
            }
        } else if c == '[' {
            let k = ws_run_end(s, j + 1);
            proof {
                lemma_ws_run_bounds(s, j + 1);
            }
            if k < s.len() && s[k] == ']' {
                Some((JsonV::Arr(Seq::empty()), k + 1))
            } else {
                match parse_elems(s, j + 1) {
                    Some((vs, p)) => Some((JsonV::Arr(vs), p)),
                    None => None,
                }
            }
        } else if c == '"' {
            match parse_str_body(s, j + 1) {
                Some((txt, p)) => Some((JsonV::Str(txt), p)),
                None => None,
            }
        } else if c == 'n' {
            if j + 4 <= s.len() && s[j + 1] == 'u' && s[j + 2] == 'l' && s[j + 3] == 'l' {
                Some((JsonV::Null, j + 4))
            } else {
                None
            }
        } else if c == 't' {
            if j + 4 <= s.len() && s[j + 1] == 'r' && s[j + 2] == 'u' && s[j + 3] == 'e' {
                Some((JsonV::Bool(true), j + 4))
            } else {
                None
            }
        } else if c == 'f' {
            if j + 5 <= s.len() && s[j + 1] == 'a' && s[j + 2] == 'l' && s[j + 3] == 's' && s[j + 4]
                == 'e' {
                Some((JsonV::Bool(false), j + 5))
            } else {
                None
            }
        } else {
            match num_end(s, j) {
                Some(e) => Some((JsonV::Num(s.subrange(j, e)), e)),
                None => None,
            }
        }
    }
}

/// One or more comma-separated array elements from `i` on, up to and
/// including the closing bracket.
pub open spec fn parse_elems(s: Seq<char>, i: int) -> Option<(Seq<JsonV>, int)>
    decreases s.len() - i, 1int when 0 <= i <= s.len()
{
    match parse_value(s, i) {
        Some((v, r)) => {
            if !(i < r <= s.len()) {
                None
            } else {
                let t = ws_run_end(s, r);
                proof {
                    lemma_ws_run_bounds(s, r);
                }
                if t < s.len() && s[t] == ',' {
                    match parse_elems(s, t + 1) {
                        Some((rest, e)) => Some((seq![v] + rest, e)),
                        None => None,
                    }
                } else if t < s.len() && s[t] == ']' {
                    Some((seq![v], t + 1))
                } else {
                    None
                }
            }
        }
        None => None,
    }
}

/// One or more comma-separated object members from `i` on, up to and
/// including the closing brace.
pub open spec fn parse_members(s: Seq<char>, i: int) -> Option<(Seq<(Seq<char>, JsonV)>, int)>
    decreases s.len() - i, 1int when 0 <= i <= s.len()
{
    let j = ws_run_end(s, i);
    proof {
        lemma_ws_run_bounds(s, i);
    }
    if j < s.len() && s[j] == '"' {
        match parse_str_body(s, j + 1) {
            Some((key, p)) => {
                proof {
                    lemma_parse_str_body_bounds(s, j + 1);
                }
                let q = ws_run_end(s, p);
                proof {
                    lemma_ws_run_bounds(s, p);
                }
                if q < s.len() && s[q] == ':' {
                    match parse_value(s, q + 1) {
                        Some((v, r)) => {
                            if !(q + 1 < r <= s.len()) {
                                None
                            } else {
                                let t = ws_run_end(s, r);
                                proof {
                                    lemma_ws_run_bounds(s, r);
                                }
                                if t < s.len() && s[t] == ',' {
                                    match parse_members(s, t + 1) {
                                        Some((rest, e)) => Some((seq![(key, v)] + rest, e)),
                                        None => None,
                                    }
                                } else if t < s.len() && s[t] == '}' {
                                    Some((seq![(key, v)], t + 1))
                                } else {
                                    None
                                }
                            }
                        }
                        None => None,
                    }
                } else {
                    None
                }
            }
            None => None,
        }
    } else {
        None
    }
}

/// The end of the whitespace run starting at `i`.
fn scan_ws(s: &Vec<char>, i: usize) -> (j: usize)
    requires
        i <= s@.len(),
    ensures
        j == ws_run_end(s@, i as int),
        i <= j <= s@.len(),
{
    let mut j = i;
    while j < s.len() && (s[j] == ' ' || s[j] == '\t' || s[j] == '\n' || s[j] == '\r')
        invariant
            i <= j <= s@.len(),
            ws_run_end(s@, i as int) == ws_run_end(s@, j as int),
        decreases s@.len() - j,
    {
        j = j + 1;
    }
    j
}

/// The end of the digit run starting at `i`.
fn scan_digits(s: &Vec<char>, i: usize) -> (j: usize)
    requires
        i <= s@.len(),
    ensures
        j == digit_run_end(s@, i as int),
        i <= j <= s@.len(),
{
    let mut j = i;
    while j < s.len() && digit_char_x(s[j])
        invariant
            i <= j <= s@.len(),
            digit_run_end(s@, i as int) == digit_run_end(s@, j as int),
        decreases s@.len() - j,
    {
        j = j + 1;
    }
    j
}

fn digit_char_x(c: char) -> (b: bool)
    ensures
        b == is_digit_char(c),
{
    let u = c as u32;
    48 <= u && u <= 57
}

/// The end of the number lexeme starting at `i`, as `num_end` gives it.
fn scan_num(s: &Vec<char>, i: usize) -> (r: Option<usize>)
    requires
        i <= s@.len(),
    ensures
        match r {
            Some(e) => num_end(s@, i as int) == Some(e as int) && i < e <= s@.len(),
            None => num_end(s@, i as int) is None,
        },
{
    let n = s.len();
    if i >= n {
        return None;
    }
    let ms = if s[i] == '-' {
        i + 1
    } else {
        i
    };
    let de = scan_digits(s, ms);
    if de == ms {
        return None;
    }
    let fe = if de < n && s[de] == '.' {
        let f = scan_digits(s, de + 1);
        if f == de + 1 {
            return None;
        }
        f
    } else {
        de
    };
    if fe < n && (s[fe] == 'e' || s[fe] == 'E') {
        let sp = if fe + 1 < n && (s[fe + 1] == '+' || s[fe + 1] == '-') {
            fe + 2
        } else {
            fe + 1
        };
        let ge = scan_digits(s, sp);
        if ge == sp {
            return None;
        }
        Some(ge)
    } else {
        Some(fe)
    }
}

/// `Some` results gain a prefix of already-decoded characters; `None`
/// passes through.
pub open spec fn prepend_body(
    acc: Seq<char>,
    r: Option<(Seq<char>, int)>,
) -> Option<(Seq<char>, int)> {
    match r {
        Some((t, p)) => Some((acc + t, p)),
        None => None,
    }
}

/// The value of one hexadecimal digit, if it is one.
fn hex_val_of(c: char) -> (r: Option<u32>)
    ensures
        match r {
            Some(v) => hex_val(c) == v as int && v < 16,
            None => hex_val(c) == -1,
        },
{
    let u = c as u32;
    if 48 <= u && u <= 57 {
        Some(u - 48)
    } else if 97 <= u && u <= 102 {
        Some(u - 87)
    } else if 65 <= u && u <= 70 {
        Some(u - 55)
    } else {
        None
    }
}

/// The value of the four hexadecimal digits at `i`, as `hex4_val`
/// gives it.
fn hex4_at(s: &Vec<char>, i: usize) -> (r: Option<u32>)
    requires
        i <= s@.len(),
    ensures
        match r {
            Some(v) => hex4_val(s@, i as int) == v as int && v <= 0xFFFF,
            None => hex4_val(s@, i as int) == -1,
        },
{
    let n = s.len();
    if n - i < 4 {
        return None;
    }
    let h0 = match hex_val_of(s[i]) {
        Some(h) => h,
        None => {
            return None;
        }
    };
    let h1 = match hex_val_of(s[i + 1]) {
        Some(h) => h,
        None => {
            return None;
        }
    };
    let h2 = match hex_val_of(s[i + 2]) {
        Some(h) => h,
        None => {
            return None;
        }
    };
    let h3 = match hex_val_of(s[i + 3]) {
        Some(h) => h,
        None => {
            return None;
        }
    };
    Some(((h0 * 16 + h1) * 16 + h2) * 16 + h3)
}

/// Relies on `char::from_u32`: it returns `Some` exactly for the valid
/// code points — everything but the surrogate range and values past
/// the maximum — and the character is that code point.
#[verifier::external_body]
fn char_from_code(v: u32) -> (c: char)
    requires
        v < 0xD800 || (0xE000 <= v && v <= 0x10FFFF),
    ensures
        c == (v as char),
{
    match char::from_u32(v) {
        Some(c) => c,
        None => ' ',
    }
}

/// Decodes a string literal's body, the opening quote already consumed.
fn parse_str_chars(s: &Vec<char>, i: usize) -> (r: Option<(Vec<char>, usize)>)
    requires
        i <= s@.len(),
    ensures
        match r {
            Some((txt, p)) => parse_str_body(s@, i as int) == Some((txt@, p as int)) && i < p
                <= s@.len(),
            None => parse_str_body(s@, i as int) is None,
        },
{
    let n = s.len();
    let mut acc: Vec<char> = Vec::new();
    let mut k = i;
    proof {
        assert(prepend_body(acc@, parse_str_body(s@, i as int)) == parse_str_body(s@, i as int)
            || parse_str_body(s@, i as int) is None) by {
            match parse_str_body(s@, i as int) {
                Some((t, p)) => {
                    assert(acc@ + t =~= t);
                }
                None => {}
            }
        }
        match parse_str_body(s@, i as int) {
            Some((t, p)) => {
                assert(acc@ + t =~= t);
            }
            None => {}
        }
    }
    while k < n
        invariant
            i <= k <= n,
            n == s@.len(),
            prepend_body(acc@, parse_str_body(s@, k as int)) == parse_str_body(s@, i as int),
        decreases n - k,
    {
        let c = s[k];
        if c == '"' {
            proof {
                assert(acc@ + Seq::<char>::empty() =~= acc@);
            }
            return Some((acc, k + 1));
        }
        if c == '\\' {
            if k + 1 >= n {
                return None;
            }
            let e = s[k + 1];
            let d: char;
            if e == '"' {
                d = '"';
            } else if e == '\\' {
                d = '\\';
            } else if e == '/' {
                d = '/';
            } else if e == 'n' {
                d = '\n';
            } else if e == 't' {
                d = '\t';
            } else if e == 'r' {
                d = '\r';
            } else if e == 'b' {
                d = '\u{0008}';
            } else if e == 'f' {
                d = '\u{000C}';
            } else if e == 'u' {
                if n - k < 6 {
                    return None;
                }
                let v = match hex4_at(s, k + 2) {
                    Some(v) => v,
                    None => {
                        return None;
                    }
                };
                if 0xD800 <= v && v <= 0xDBFF {
                    // A high surrogate must pair with a low one.
                    if !(n - k >= 12 && s[k + 6] == '\\' && s[k + 7] == 'u') {
                        return None;
                    }
                    let w = match hex4_at(s, k + 8) {
                        Some(w) => w,
                        None => {
                            return None;
                        }
                    };
                    if !(0xDC00 <= w && w <= 0xDFFF) {
                        return None;
                    }
                    let cp = 0x10000 + (v - 0xD800) * 0x400 + (w - 0xDC00);
                    let dc = char_from_code(cp);
                    acc.push(dc);
                    proof {
                        match parse_str_body(s@, k + 12) {
                            Some((t, p)) => {
                                assert(acc@ + t =~= (acc@.drop_last() + (seq![dc] + t)));
                            }
                            None => {}
                        }
                    }
                    k = k + 12;
                    continue;
                }
                if 0xDC00 <= v && v <= 0xDFFF {
                    return None;
                }
                let dc = char_from_code(v);
                acc.push(dc);
                proof {
                    match parse_str_body(s@, k + 6) {
                        Some((t, p)) => {
                            assert(acc@ + t =~= (acc@.drop_last() + (seq![dc] + t)));
                        }
                        None => {}
                    }
                }
                k = k + 6;
                continue;
            } else {
                return None;
            }
            acc.push(d);
            proof {
                match parse_str_body(s@, k + 2) {
                    Some((t, p)) => {
                        assert(acc@ + t =~= (acc@.drop_last() + (seq![d] + t)));
                    }
                    None => {}
                }
            }
            k = k + 2;
        } else {
            acc.push(c);
            proof {
                match parse_str_body(s@, k + 1) {
                    Some((t, p)) => {
                        assert(acc@ + t =~= (acc@.drop_last() + (seq![c] + t)));
                    }
                    None => {}
                }
            }
            k = k + 1;
        }
    }
    None
}

/// Parses one value; mirrors `parse_value` exactly.
pub fn parse_value_x(s: &Vec<char>, i: usize) -> (r: Option<(JsonValue, usize)>)
    requires
        i <= s@.len(),
    ensures
        match r {
            Some((v, p)) => parse_value(s@, i as int) == Some((v@, p as int)) && p <= s@.len(),
            None => parse_value(s@, i as int) is None,
        },
    decreases s@.len() - i, 0int,
{
    let n = s.len();
    let j = scan_ws(s, i);
    if j >= n {
        return None;
    }
    let c = s[j];
    if c == '{' {
        let k = scan_ws(s, j + 1);
        if k < n && s[k] == '}' {
            let v = JsonValue::Obj(Vec::new());
            proof {
                assert(obj_of(Seq::<JsonMember>::empty(), 0) =~= Seq::<(Seq<char>, JsonV)>::empty());
            }
            return Some((v, k + 1));
        }
        match parse_members_x(s, j + 1) {
            Some((fs, p)) => {
                let v = JsonValue::Obj(fs);
                Some((v, p))
            }
            None => None,
        }
    } else if c == '[' {
        let k = scan_ws(s, j + 1);
        if k < n && s[k] == ']' {
            let v = JsonValue::Arr(Vec::new());
            proof {
                assert(arr_of(Seq::<JsonValue>::empty(), 0) =~= Seq::<JsonV>::empty());
            }
            return Some((v, k + 1));
        }
        match parse_elems_x(s, j + 1) {
            Some((vs, p)) => {
                let v = JsonValue::Arr(vs);
                Some((v, p))
            }
            None => None,
        }
    } else if c == '"' {
        match parse_str_chars(s, j + 1) {
            Some((txt, p)) => Some((JsonValue::Str(string_of_chars(&txt)), p)),
            None => None,
        }
    } else if c == 'n' {
        if n - j >= 4 && s[j + 1] == 'u' && s[j + 2] == 'l' && s[j + 3] == 'l' {
            Some((JsonValue::Null, j + 4))
        } else {
            None
        }
    } else if c == 't' {
        if n - j >= 4 && s[j + 1] == 'r' && s[j + 2] == 'u' && s[j + 3] == 'e' {
            Some((JsonValue::Bool(true), j + 4))
        } else {
            None
        }
    } else if c == 'f' {
        if n - j >= 5 && s[j + 1] == 'a' && s[j + 2] == 'l' && s[j + 3] == 's' && s[j + 4] == 'e' {
            Some((JsonValue::Bool(false), j + 5))
        } else {
            None
        }
    } else {
        match scan_num(s, j) {
            Some(e) => {
                let lex = chars_sub(s, j, e);
                Some((JsonValue::Num(string_of_chars(&lex)), e))
            }
            None => None,
        }
    }
}

/// Parses the elements of an array; mirrors `parse_elems` exactly.
fn parse_elems_x(s: &Vec<char>, i: usize) -> (r: Option<(Vec<JsonValue>, usize)>)
    requires
        i <= s@.len(),
    ensures
        match r {
            Some((vs, p)) => parse_elems(s@, i as int) == Some((arr_of(vs@, 0), p as int)) && p
                <= s@.len(),
            None => parse_elems(s@, i as int) is None,
        },
    decreases s@.len() - i, 1int,
{
    let n = s.len();
    match parse_value_x(s, i) {
        Some((v, r)) => {
            if !(i < r && r <= n) {
                return None;
            }
            let t = scan_ws(s, r);
            if t < n && s[t] == ',' {
                match parse_elems_x(s, t + 1) {
                    Some((mut rest, e)) => {
                        let ghost pre = rest@;
                        let ghost v0 = jv_of(v);
                        rest.insert(0, v);
                        proof {
                            assert(rest@.skip(1) =~= pre);
                            assert(rest@[0] == v);
                            lemma_arr_of(rest@, 0);
                            lemma_arr_of(pre, 0);
                            assert forall|u: int| 0 <= u < rest@.len() implies #[trigger] arr_of(
                                rest@,
                                0,
                            )[u] == (seq![v0] + arr_of(pre, 0))[u] by {
                                if u > 0 {
                                    assert(rest@[u] == pre[u - 1]);
                                }
                            }
                            assert(arr_of(rest@, 0) =~= seq![v0] + arr_of(pre, 0));
                        }
                        Some((rest, e))
                    }
                    None => None,
                }
            } else if t < n && s[t] == ']' {
                let mut vs: Vec<JsonValue> = Vec::new();
                vs.push(v);
                proof {
                    lemma_arr_of(vs@, 0);
                    assert(arr_of(vs@, 0) =~= seq![jv_of(v)]);
                }
                Some((vs, t + 1))
            } else {
                None
            }
        }
        None => None,
    }
}

/// Parses the members of an object; mirrors `parse_members` exactly.
fn parse_members_x(s: &Vec<char>, i: usize) -> (r: Option<(Vec<JsonMember>, usize)>)
    requires
        i <= s@.len(),
    ensures
        match r {
            Some((fs, p)) => parse_members(s@, i as int) == Some((obj_of(fs@, 0), p as int)) && p
                <= s@.len(),
            None => parse_members(s@, i as int) is None,
        },
    decreases s@.len() - i, 1int,
{
    let n = s.len();
    let j = scan_ws(s, i);
    if !(j < n && s[j] == '"') {
        return None;
    }
    match parse_str_chars(s, j + 1) {
        Some((key, p)) => {
            let q = scan_ws(s, p);
            if !(q < n && s[q] == ':') {
                return None;
            }
            match parse_value_x(s, q + 1) {
                Some((v, r)) => {
                    if !(q + 1 < r && r <= n) {
                        return None;
                    }
                    let t = scan_ws(s, r);
                    let memb = JsonMember { key: string_of_chars(&key), value: v };
                    if t < n && s[t] == ',' {
                        match parse_members_x(s, t + 1) {
                            Some((mut rest, e)) => {
                                let ghost mv = (memb.key@, jv_of(memb.value));
                                let ghost pre = rest@;
                                rest.insert(0, memb);
                                proof {
                                    assert(rest@.skip(1) =~= pre);
                                    assert(rest@[0] == memb);
                                    lemma_obj_of(rest@, 0);
                                    lemma_obj_of(pre, 0);
                                    assert forall|u: int| 0 <= u < rest@.len() implies
                                        #[trigger] obj_of(rest@, 0)[u] == (seq![mv] + obj_of(
                                        pre,
                                        0,
                                    ))[u] by {
                                        if u > 0 {
                                            assert(rest@[u] == pre[u - 1]);
                                        }
                                    }
                                    assert(obj_of(rest@, 0) =~= seq![mv] + obj_of(pre, 0));
                                }
                                Some((rest, e))
                            }
                            None => None,
                        }
                    } else if t < n && s[t] == '}' {
                        let ghost mv = (memb.key@, jv_of(memb.value));
                        let mut fs: Vec<JsonMember> = Vec::new();
                        fs.push(memb);
                        proof {
                            lemma_obj_of(fs@, 0);
                            assert(obj_of(fs@, 0) =~= seq![mv]);
                        }
                        Some((fs, t + 1))
                    } else {
                        None
                    }
                }
                None => None,
            }
        }
        None => None,
    }
}

/// Parses a whole text as one JSON value, as `parse_json_text` states
/// it.
pub fn parse_json_chars(s: &Vec<char>) -> (r: Option<JsonValue>)
    ensures
        match r {
            Some(v) => parse_json_text(s@) == Some(v@),
            None => parse_json_text(s@) is None,
        },
{
    match parse_value_x(s, 0) {
        Some((v, p)) => {
            let t = scan_ws(s, p);
            if t == s.len() {
                Some(v)
            } else {
                None
            }
        }
        None => None,
    }
}

/// The one JSON value a text holds, with nothing but whitespace after
/// it.
pub open spec fn parse_json_text(s: Seq<char>) -> Option<JsonV> {
    match parse_value(s, 0) {
        Some((v, p)) => if 0 <= p <= s.len() && ws_run_end(s, p) == s.len() {
            Some(v)
        } else {
            None
        },
        None => None,
    }
}

// ------------------------------------------------------------------
// The round trip: parsing a printed value gives the value back
// ------------------------------------------------------------------

/// A whole number lexeme: what `num_end` accepts in full.
pub open spec fn num_token(lex: Seq<char>) -> bool {
    num_end(lex, 0) == Some(lex.len() as int)
}

/// A printable value: every number in it is a whole lexeme.
pub open spec fn wf_jv(v: JsonV) -> bool
    decreases v,
{
    match v {
        JsonV::Null => true,
        JsonV::Bool(_) => true,
        JsonV::Num(lex) => num_token(lex),
        JsonV::Str(_) => true,
        JsonV::Arr(items) => forall|i: int| 0 <= i < items.len() ==> wf_jv(#[trigger] items[i]),
        JsonV::Obj(fields) => forall|i: int| 0 <= i < fields.len() ==> wf_jv(
            #[trigger] fields[i].1,
        ),
    }
}

/// A character that may follow a printed value without extending it.
pub open spec fn is_value_end(s: Seq<char>, e: int) -> bool {
    e == s.len() || s[e] == ',' || s[e] == ']' || s[e] == '}'
}

/// The first character of a printed value: never whitespace, never a
/// closing token.
proof fn lemma_print_head(v: JsonV)
    requires
        wf_jv(v),
    ensures
        print_jv(v).len() > 0,
        !is_ws(print_jv(v)[0]),
        print_jv(v)[0] != ']',
        print_jv(v)[0] != '}',
        print_jv(v)[0] != ',',
        print_jv(v)[0] != ':',
{
    match v {
        JsonV::Null => {}
        JsonV::Bool(b) => {}
        JsonV::Num(lex) => {
            assert(lex.len() > 0);
        }
        JsonV::Str(s) => {
            assert(print_jv(v)[0] == '"');
        }
        JsonV::Arr(items) => {
            assert(print_jv(v)[0] == '[');
        }
        JsonV::Obj(fields) => {
            assert(print_jv(v)[0] == '{');
        }
    }
}

/// Skipping whitespace at a non-whitespace character stays put.
proof fn lemma_ws_stay(s: Seq<char>, i: int)
    requires
        0 <= i <= s.len(),
        i < s.len() ==> !is_ws(s[i]),
    ensures
        ws_run_end(s, i) == i,
{
}

/// A printed string body parses back to its content.
proof fn lemma_parse_str_print(content: Seq<char>, s: Seq<char>, i: int)
    requires
        0 <= i,
        i + json_escape(content).len() + 1 <= s.len(),
        s.subrange(i, i + json_escape(content).len() + 1) == json_escape(content) + seq!['"'],
    ensures
        parse_str_body(s, i) == Some((content, i + json_escape(content).len() + 1)),
    decreases content.len(),
{
    let esc = json_escape(content);
    let suf = s.subrange(i, i + esc.len() + 1);
    assert forall|t: int| 0 <= t < suf.len() implies #[trigger] s[i + t] == suf[t] by {}
    if content.len() == 0 {
        assert(esc =~= Seq::<char>::empty());
        assert(s[i + 0] == '"');
    } else {
        let c = content[0];
        let head = json_escape_char(c);
        let rest = content.skip(1);
        assert(esc == head + json_escape(rest));
        assert(s.subrange(
            i + head.len(),
            i + head.len() + json_escape(rest).len() + 1,
        ) =~= json_escape(rest) + seq!['"']) by {
            assert forall|t: int| 0 <= t < json_escape(rest).len() + 1 implies s.subrange(
                i + head.len(),
                i + head.len() + json_escape(rest).len() + 1,
            )[t] == (json_escape(rest) + seq!['"'])[t] by {
                assert(s[i + (head.len() + t)] == suf[head.len() + t]);
            }
        }
        lemma_parse_str_print(rest, s, i + head.len() as int);
        if c == '"' || c == '\\' || c == '\n' || c == '\t' || c == '\r' || c == '\u{0008}' || c
            == '\u{000C}' {
            assert(s[i + 0] == '\\');
            assert(s[i + 1] == head[1]);
            assert(seq![c] + rest =~= content);
        } else if (c as u32) < 32 {
            // The character was written as a `\u00XX` escape.
            let u = (c as u32) as int;
            assert(s[i + 0] == '\\');
            assert(s[i + 1] == 'u');
            assert(s[i + 2] == '0');
            assert(s[i + 3] == '0');
            assert(s[i + 4] == hex_digit_char(u / 16));
            assert(s[i + 5] == hex_digit_char(u % 16));
            lemma_hex_digit_char(u / 16);
            lemma_hex_digit_char(u % 16);
            assert(hex_val('0') == 0);
            assert(hex4_val(s, i + 2) == u);
            assert((u as char) == c) by {
                vstd::utf8::char_u32_cast(c, c as u32);
            }
            assert(seq![c] + rest =~= content);
        } else {
            assert(s[i + 0] == c);
            assert(c != '"' && c != '\\');
            assert(seq![c] + rest =~= content);
        }
    }
}

/// A rendered number lexeme in a larger text scans to its own end when
/// a delimiter follows.
proof fn lemma_num_end_embedded(lex: Seq<char>, s: Seq<char>, i: int)
    requires
        num_token(lex),
        0 <= i,
        i + lex.len() <= s.len(),
        s.subrange(i, i + lex.len()) == lex,
        is_value_end(s, i + lex.len()),
    ensures
        num_end(s, i) == Some(i + lex.len() as int),
        s.subrange(i, i + lex.len()) == lex,
{
    let n = lex.len() as int;
    let e = i + n;
    assert forall|t: int| 0 <= t < n implies #[trigger] s[i + t] == lex[t] by {
        assert(s.subrange(i, e)[t] == s[i + t]);
    }
    assert(n > 0);
    // Positions within the lexeme, as num_end finds them on the lexeme
    // itself.
    let ms0 = if lex[0] == '-' {
        1int
    } else {
        0int
    };
    lemma_digit_run_bounds(lex, ms0);
    let de0 = digit_run_end(lex, ms0);
    assert(de0 != ms0);
    // The digit run transfers to the embedded position.
    assert(s[i + 0] == lex[0]);
    let ms = i + ms0;
    let de = i + de0;
    assert forall|t: int| ms <= t < de implies is_digit_char(#[trigger] s[t]) by {
        assert(s[i + (t - i)] == lex[t - i]);
    }
    assert(de < s.len() ==> !is_digit_char(s[de])) by {
        if de0 < n {
            assert(s[i + de0] == lex[de0]);
        } else {
            if e < s.len() {
                assert(!is_digit_char(s[e]));
            }
        }
    }
    lemma_digit_run_exact(s, ms, de);
    let fe0 = if de0 < n && lex[de0] == '.' {
        digit_run_end(lex, de0 + 1)
    } else {
        de0
    };
    if de0 < n && lex[de0] == '.' {
        lemma_digit_run_bounds(lex, de0 + 1);
        assert(fe0 != de0 + 1);
        assert(s[i + de0] == lex[de0]);
        assert forall|t: int| i + de0 + 1 <= t < i + fe0 implies is_digit_char(
            #[trigger] s[t],
        ) by {
            assert(s[i + (t - i)] == lex[t - i]);
        }
        assert(i + fe0 < s.len() ==> !is_digit_char(s[i + fe0])) by {
            if fe0 < n {
                assert(s[i + fe0] == lex[fe0]);
            } else {
                if e < s.len() {
                    assert(!is_digit_char(s[e]));
                }
            }
        }
        lemma_digit_run_exact(s, i + de0 + 1, i + fe0);
    } else {
        if de0 < n {
            assert(s[i + de0] == lex[de0]);
        } else {
            if e < s.len() {
                assert(s[e] != '.');
            }
        }
    }
    let fe = i + fe0;
    if fe0 < n && (lex[fe0] == 'e' || lex[fe0] == 'E') {
        let sp0 = if fe0 + 1 < n && (lex[fe0 + 1] == '+' || lex[fe0 + 1] == '-') {
            fe0 + 2
        } else {
            fe0 + 1
        };
        lemma_digit_run_bounds(lex, sp0);
        let ge0 = digit_run_end(lex, sp0);
        assert(ge0 != sp0);
        assert(ge0 == n);
        assert(s[i + fe0] == lex[fe0]);
        if fe0 + 1 < n {
            assert(s[i + (fe0 + 1)] == lex[fe0 + 1]);
        }
        assert forall|t: int| i + sp0 <= t < i + ge0 implies is_digit_char(#[trigger] s[t]) by {
            assert(s[i + (t - i)] == lex[t - i]);
        }
        assert(i + ge0 < s.len() ==> !is_digit_char(s[i + ge0])) by {
            if e < s.len() {
                assert(!is_digit_char(s[e]));
            }
        }
        lemma_digit_run_exact(s, i + sp0, i + ge0);
        if !(fe0 + 1 < n) {
            // The sign test at the embedded position looks past the
            // lexeme; the delimiter there is no sign.
            if fe + 1 < s.len() {
                assert(s[fe + 1] != '+' && s[fe + 1] != '-') by {
                    assert(fe0 + 1 == n);
                    assert(is_value_end(s, e));
                }
            }
        }
    } else {
        if fe0 < n {
            assert(s[i + fe0] == lex[fe0]);
        } else {
            if e < s.len() {
                assert(s[e] != 'e' && s[e] != 'E');
            }
        }
    }
    assert(num_end(s, i) == Some(e));
}

/// Parsing a printed value embedded at `i`, with a delimiter after it,
/// gives the value back and stops exactly at its end.
#[verifier::rlimit(60)]
#[verifier::spinoff_prover]
pub proof fn lemma_parse_print(v: JsonV, s: Seq<char>, i: int)
    requires
        wf_jv(v),
        0 <= i,
        i + print_jv(v).len() <= s.len(),
        s.subrange(i, i + print_jv(v).len()) == print_jv(v),
        is_value_end(s, i + print_jv(v).len()),
    ensures
        parse_value(s, i) == Some((v, i + print_jv(v).len() as int)),
    decreases v, 0int, 0int,
{
    let p = print_jv(v);
    let e = i + p.len() as int;
    assert forall|t: int| 0 <= t < p.len() implies #[trigger] s[i + t] == p[t] by {
        assert(s.subrange(i, e)[t] == s[i + t]);
    }
    lemma_print_head(v);
    assert(s[i + 0] == p[0]);
    lemma_ws_stay(s, i);
    match v {
        JsonV::Null => {
            assert(s[i + 1] == 'u');
            assert(s[i + 2] == 'l');
            assert(s[i + 3] == 'l');
        }
        JsonV::Bool(b) => {
            if b {
                assert(s[i + 1] == 'r');
                assert(s[i + 2] == 'u');
                assert(s[i + 3] == 'e');
            } else {
                assert(s[i + 1] == 'a');
                assert(s[i + 2] == 'l');
                assert(s[i + 3] == 's');
                assert(s[i + 4] == 'e');
            }
        }
        JsonV::Num(lex) => {
            assert(lex[0] == '-' || is_digit_char(lex[0])) by {
                if lex[0] != '-' {
                    lemma_digit_run_bounds(lex, 0);
                    assert(digit_run_end(lex, 0) != 0);
                }
            }
            assert(s.subrange(i, i + lex.len()) == lex);
            lemma_num_end_embedded(lex, s, i);
        }
        JsonV::Str(content) => {
            let esc = json_escape(content);
            assert(s.subrange(i + 1, i + 1 + esc.len() + 1) =~= esc + seq!['"']) by {
                assert forall|t: int| 0 <= t < esc.len() + 1 implies s.subrange(
                    i + 1,
                    i + 1 + esc.len() + 1,
                )[t] == (esc + seq!['"'])[t] by {
                    assert(s[i + (1 + t)] == p[1 + t]);
                }
            }
            lemma_parse_str_print(content, s, i + 1);
        }
        JsonV::Arr(items) => {
            if items.len() == 0 {
                assert(print_items(items, 0) =~= Seq::<char>::empty());
                assert(s[i + 1] == ']');
                lemma_ws_stay(s, i + 1);
                assert(items =~= Seq::<JsonV>::empty());
            } else {
                let body = print_items(items, 0);
                lemma_print_head(items[0]);
                assert(body[0] == print_jv(items[0])[0]);
                assert(s[i + 1] == body[0]);
                lemma_ws_stay(s, i + 1);
                assert(s.subrange(i + 1, i + 1 + body.len() + 1) =~= body + seq![']']) by {
                    assert forall|t: int| 0 <= t < body.len() + 1 implies s.subrange(
                        i + 1,
                        i + 1 + body.len() + 1,
                    )[t] == (body + seq![']'])[t] by {
                        assert(s[i + (1 + t)] == p[1 + t]);
                    }
                }
                lemma_parse_elems_print(items, 0, s, i + 1);
                assert(items.skip(0) =~= items);
            }
        }
        JsonV::Obj(fields) => {
            if fields.len() == 0 {
                assert(print_fields(fields, 0) =~= Seq::<char>::empty());
                assert(s[i + 1] == '}');
                lemma_ws_stay(s, i + 1);
                assert(fields =~= Seq::<(Seq<char>, JsonV)>::empty());
            } else {
                let body = print_fields(fields, 0);
                assert(body[0] == '"') by {
                    assert(body == print_string(fields[0].0) + seq![':'] + print_jv(fields[0].1)
                        + (if 1 < fields.len() {
                            seq![','] + print_fields(fields, 1)
                        } else {
                            Seq::<char>::empty()
                        })) by {
                        if 1 < fields.len() {
                        } else {
                            assert(body =~= print_string(fields[0].0) + seq![':'] + print_jv(
                                fields[0].1,
                            ) + Seq::<char>::empty());
                        }
                    }
                }
                assert(s[i + 1] == body[0]);
                lemma_ws_stay(s, i + 1);
                assert(s.subrange(i + 1, i + 1 + body.len() + 1) =~= body + seq!['}']) by {
                    assert forall|t: int| 0 <= t < body.len() + 1 implies s.subrange(
                        i + 1,
                        i + 1 + body.len() + 1,
                    )[t] == (body + seq!['}'])[t] by {
                        assert(s[i + (1 + t)] == p[1 + t]);
                    }
                }
                lemma_parse_members_print(fields, 0, s, i + 1);
                assert(fields.skip(0) =~= fields);
            }
        }
    }
}

/// Parsing the printed elements from the `k`-th on, followed by the
/// closing bracket, gives those elements back.
#[verifier::rlimit(60)]
#[verifier::spinoff_prover]
proof fn lemma_parse_elems_print(items: Seq<JsonV>, k: int, s: Seq<char>, i: int)
    requires
        0 <= k < items.len(),
        forall|t: int| 0 <= t < items.len() ==> wf_jv(#[trigger] items[t]),
        0 <= i,
        i + print_items(items, k).len() + 1 <= s.len(),
        s.subrange(i, i + print_items(items, k).len() + 1) == print_items(items, k) + seq![']'],
    ensures
        parse_elems(s, i) == Some(
            (items.skip(k), i + print_items(items, k).len() + 1 as int),
        ),
    decreases items, items.len() - k, 1int,
{
    let body = print_items(items, k);
    let e = i + body.len() + 1;
    assert forall|t: int| 0 <= t < body.len() + 1 implies #[trigger] s[i + t] == (body
        + seq![']'])[t] by {
        assert(s.subrange(i, e)[t] == s[i + t]);
    }
    let hv = items[k];
    let hp = print_jv(hv);
    lemma_print_head(hv);
    if k + 1 < items.len() {
        let rest_body = print_items(items, k + 1);
        assert(body == hp + seq![','] + rest_body);
        assert(s.subrange(i, i + hp.len()) =~= hp) by {
            assert forall|t: int| 0 <= t < hp.len() implies s.subrange(i, i + hp.len())[t]
                == hp[t] by {
                assert(s[i + t] == (body + seq![']'])[t]);
            }
        }
        assert(s[i + hp.len()] == ',');
        lemma_parse_print(hv, s, i);
        let r = i + hp.len() as int;
        lemma_ws_stay(s, r);
        assert(s.subrange(r + 1, r + 1 + rest_body.len() + 1) =~= rest_body + seq![']']) by {
            assert forall|t: int| 0 <= t < rest_body.len() + 1 implies s.subrange(
                r + 1,
                r + 1 + rest_body.len() + 1,
            )[t] == (rest_body + seq![']'])[t] by {
                assert(s[i + (hp.len() + 1 + t)] == (body + seq![']'])[hp.len() + 1 + t]);
            }
        }
        lemma_parse_elems_print(items, k + 1, s, r + 1);
        assert(seq![hv] + items.skip(k + 1) =~= items.skip(k));
    } else {
        assert(body == hp);
        assert(s.subrange(i, i + hp.len()) =~= hp) by {
            assert forall|t: int| 0 <= t < hp.len() implies s.subrange(i, i + hp.len())[t]
                == hp[t] by {
                assert(s[i + t] == (body + seq![']'])[t]);
            }
        }
        assert(s[i + hp.len()] == ']');
        lemma_parse_print(hv, s, i);
        let r = i + hp.len() as int;
        lemma_ws_stay(s, r);
        assert(items.skip(k) =~= seq![hv]);
    }
}

/// Parsing the printed members from the `k`-th on, followed by the
/// closing brace, gives those members back.
#[verifier::rlimit(60)]
#[verifier::spinoff_prover]
proof fn lemma_parse_members_print(
    fields: Seq<(Seq<char>, JsonV)>,
    k: int,
    s: Seq<char>,
    i: int,
)
    requires
        0 <= k < fields.len(),
        forall|t: int| 0 <= t < fields.len() ==> wf_jv(#[trigger] fields[t].1),
        0 <= i,
        i + print_fields(fields, k).len() + 1 <= s.len(),
        s.subrange(i, i + print_fields(fields, k).len() + 1) == print_fields(fields, k)
            + seq!['}'],
    ensures
        parse_members(s, i) == Some(
            (fields.skip(k), i + print_fields(fields, k).len() + 1 as int),
        ),
    decreases fields, fields.len() - k, 1int,
{
    let body = print_fields(fields, k);
    let e = i + body.len() + 1;
    assert forall|t: int| 0 <= t < body.len() + 1 implies #[trigger] s[i + t] == (body
        + seq!['}'])[t] by {
        assert(s.subrange(i, e)[t] == s[i + t]);
    }
    let key = fields[k].0;
    let hv = fields[k].1;
    let ks = print_string(key);
    let hp = print_jv(hv);
    let memb = ks + seq![':'] + hp;
    lemma_print_head(hv);
    assert(s[i + 0] == '"');
    lemma_ws_stay(s, i);
    let esc = json_escape(key);
    assert(s.subrange(i + 1, i + 1 + esc.len() + 1) =~= esc + seq!['"']) by {
        assert forall|t: int| 0 <= t < esc.len() + 1 implies s.subrange(
            i + 1,
            i + 1 + esc.len() + 1,
        )[t] == (esc + seq!['"'])[t] by {
            assert(s[i + (1 + t)] == (body + seq!['}'])[1 + t]);
        }
    }
    lemma_parse_str_print(key, s, i + 1);
    let p = i + ks.len() as int;
    assert(s[i + ks.len()] == ':');
    lemma_ws_stay(s, p);
    assert(s.subrange(p + 1, p + 1 + hp.len()) =~= hp) by {
        assert forall|t: int| 0 <= t < hp.len() implies s.subrange(p + 1, p + 1 + hp.len())[t]
            == hp[t] by {
            assert(s[i + (ks.len() + 1 + t)] == (body + seq!['}'])[ks.len() + 1 + t]);
        }
    }
    let r = p + 1 + hp.len() as int;
    if k + 1 < fields.len() {
        let rest_body = print_fields(fields, k + 1);
        assert(body == memb + seq![','] + rest_body);
        assert(s[i + (memb.len() as int)] == ',');
        lemma_parse_print(hv, s, p + 1);
        lemma_ws_stay(s, r);
        assert(s.subrange(r + 1, r + 1 + rest_body.len() + 1) =~= rest_body + seq!['}']) by {
            assert forall|t: int| 0 <= t < rest_body.len() + 1 implies s.subrange(
                r + 1,
                r + 1 + rest_body.len() + 1,
            )[t] == (rest_body + seq!['}'])[t] by {
                assert(s[i + (memb.len() + 1 + t)] == (body + seq!['}'])[memb.len() + 1 + t]);
            }
        }
        lemma_parse_members_print(fields, k + 1, s, r + 1);
        assert(seq![(key, hv)] + fields.skip(k + 1) =~= fields.skip(k));
        assert(fields[k] == (key, hv));
    } else {
        assert(body == memb);
        assert(s[i + (memb.len() as int)] == '}');
        lemma_parse_print(hv, s, p + 1);
        lemma_ws_stay(s, r);
        assert(fields[k] == (key, hv));
        assert(fields.skip(k) =~= seq![(key, hv)]);
    }
}

/// A rendered integer is a whole number lexeme.
pub proof fn lemma_rendered_num_token(v: int)
    ensures
        num_token(crate::text::int_dec_chars(v)),
{
    let lex = crate::text::int_dec_chars(v);
    let ms: int = if v < 0 {
        1
    } else {
        0
    };
    if v < 0 {
        crate::text::lemma_dec_digits((-v) as nat);
        assert(lex[0] == '-');
        assert forall|t: int| ms <= t < lex.len() implies is_digit_char(#[trigger] lex[t]) by {
            assert(lex[t] == crate::text::dec_digits((-v) as nat)[t - 1]);
        }
    } else {
        crate::text::lemma_dec_digits(v as nat);
        assert(lex[0] != '-');
    }
    lemma_digit_run_exact(lex, ms, lex.len() as int);
    assert(num_end(lex, 0) == Some(lex.len() as int));
}

/// Parsing the compact text of a printable value gives the value back.
pub proof fn lemma_parse_print_text(v: JsonV)
    requires
        wf_jv(v),
    ensures
        parse_json_text(print_jv(v)) == Some(v),
{
    let s = print_jv(v);
    assert(s.subrange(0, s.len() as int) =~= s);
    lemma_parse_print(v, s, 0);
    lemma_ws_run_bounds(s, s.len() as int);
}

} // verus!
