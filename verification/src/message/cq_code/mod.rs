//! The generic segment codec.
//!
//! A segment shape is described by a schema: an ordered list of field
//! declarations, each a wire name and a field kind.  One shared codec
//! maps any instance — a list of optional field values parallel to the
//! schema — to and from the inline bracketed notation
//! `[CQ:tag,field=value,...]`.  Every shape of the catalog goes through
//! this codec, so the round-trip argument is made once, here.

pub mod code;

use vstd::prelude::*;
use crate::error::{SegmentError, SegErr};
use crate::escape::{
    escape_seq, unescape_seq, escape_chars, unescape_chars,
    lemma_unescape_escape, lemma_escape_chars,
};
use crate::json::{JsonValue, JsonMember, JsonV, jv_of, obj_of, lemma_obj_of, print_jv, parse_json_text, json_value_text};
use crate::text::{
    is_word_char, word_char, lower_chars, to_lower_chars, str_chars, string_of_chars,
    chars_eq, chars_sub, int_dec_chars, parse_sint_in, parse_dec_in, push_dec_i64,
    lemma_parse_of_rendered, lemma_rendered_int_chars,
};

verus! {

/// The type a field is declared with.  Boolean-like fields travel as the
/// digits `0`/`1` and are kept as small integers.
#[derive(Debug, Clone, Copy, PartialEq, Eq, Structural)]
pub enum FieldKind {
    Int8,
    Int32,
    Int64,
    Text,
}

/// A field value in its decoded form.
#[derive(Debug, Clone)]
pub enum FieldValue {
    Int(i64),
    Text(String),
}

/// The mathematical shadow of `FieldValue`.
pub enum FieldVal {
    Int(int),
    Text(Seq<char>),
}

impl View for FieldValue {
    type V = FieldVal;

    open spec fn view(&self) -> FieldVal {
        match self {
            FieldValue::Int(v) => FieldVal::Int(*v as int),
            FieldValue::Text(s) => FieldVal::Text(s@),
        }
    }
}

/// One entry of a shape's schema: the field's wire name and its kind.
#[derive(Debug, Clone)]
pub struct FieldDecl {
    pub name: String,
    pub kind: FieldKind,
}

impl View for FieldDecl {
    type V = (Seq<char>, FieldKind);

    open spec fn view(&self) -> (Seq<char>, FieldKind) {
        (self.name@, self.kind)
    }
}

/// The schema a declaration vector describes.
pub open spec fn schema_view(ds: Seq<FieldDecl>) -> Seq<(Seq<char>, FieldKind)> {
    Seq::new(ds.len(), |i: int| (ds[i].name@, ds[i].kind))
}

/// The mathematical form of a field-value vector.
pub open spec fn vals_view(vs: Seq<Option<FieldValue>>) -> Seq<Option<FieldVal>> {
    Seq::new(
        vs.len(),
        |i: int| match vs[i] {
            Some(f) => Some(f@),
            None => None,
        },
    )
}

/// The mathematical form of a raw `(name, value)` pair vector.
pub open spec fn pairs_view(ps: Seq<(Vec<char>, Vec<char>)>) -> Seq<(Seq<char>, Seq<char>)> {
    Seq::new(ps.len(), |i: int| (ps[i].0@, ps[i].1@))
}

pub open spec fn kind_lo(k: FieldKind) -> int {
    match k {
        FieldKind::Int8 => -128,
        FieldKind::Int32 => -0x8000_0000,
        FieldKind::Int64 => -0x8000_0000_0000_0000,
        FieldKind::Text => 0,
    }
}

pub open spec fn kind_hi(k: FieldKind) -> int {
    match k {
        FieldKind::Int8 => 127,
        FieldKind::Int32 => 0x7fff_ffff,
        FieldKind::Int64 => 0x7fff_ffff_ffff_ffff,
        FieldKind::Text => 0,
    }
}

/// How a field value is rendered in the inline notation, before escaping.
pub open spec fn render_val(v: FieldVal) -> Seq<char> {
    match v {
        FieldVal::Int(n) => int_dec_chars(n),
        FieldVal::Text(s) => s,
    }
}

// ------------------------------------------------------------------
// The inline grammar: [CQ:tag(,name=value)*]
//
// A tag or field name is a non-empty run of word characters; a value is
// a non-empty run of characters other than `,` and `]`.
// ------------------------------------------------------------------

pub open spec fn is_value_char(c: char) -> bool {
    c != ',' && c != ']'
}

/// The first position at or after `i` whose character is not a word
/// character (or the end of the text).
pub open spec fn word_run_end(s: Seq<char>, i: int) -> int
    decreases s.len() - i when 0 <= i <= s.len()
{
    if i < s.len() && is_word_char(s[i]) {
        word_run_end(s, i + 1)
    } else {
        i
    }
}

/// The first position at or after `i` whose character is `,` or `]` (or
/// the end of the text).
pub open spec fn value_run_end(s: Seq<char>, i: int) -> int
    decreases s.len() - i when 0 <= i <= s.len()
{
    if i < s.len() && is_value_char(s[i]) {
        value_run_end(s, i + 1)
    } else {
        i
    }
}

pub proof fn lemma_word_run_bounds(s: Seq<char>, i: int)
    requires
        0 <= i <= s.len(),
    ensures
        i <= word_run_end(s, i) <= s.len(),
        forall|t: int| i <= t < word_run_end(s, i) ==> is_word_char(#[trigger] s[t]),
        word_run_end(s, i) < s.len() ==> !is_word_char(s[word_run_end(s, i)]),
    decreases s.len() - i,
{
    if i < s.len() && is_word_char(s[i]) {
        lemma_word_run_bounds(s, i + 1);
    }
}

pub proof fn lemma_value_run_bounds(s: Seq<char>, i: int)
    requires
        0 <= i <= s.len(),
    ensures
        i <= value_run_end(s, i) <= s.len(),
        forall|t: int| i <= t < value_run_end(s, i) ==> is_value_char(#[trigger] s[t]),
        value_run_end(s, i) < s.len() ==> !is_value_char(s[value_run_end(s, i)]),
    decreases s.len() - i,
{
    if i < s.len() && is_value_char(s[i]) {
        lemma_value_run_bounds(s, i + 1);
    }
}

/// A run ends exactly where its characters stop satisfying the class.
pub proof fn lemma_word_run_exact(s: Seq<char>, i: int, j: int)
    requires
        0 <= i <= j <= s.len(),
        forall|t: int| i <= t < j ==> is_word_char(#[trigger] s[t]),
        j == s.len() || !is_word_char(s[j]),
    ensures
        word_run_end(s, i) == j,
    decreases j - i,
{
    if i < j {
        lemma_word_run_exact(s, i + 1, j);
    }
}

pub proof fn lemma_value_run_exact(s: Seq<char>, i: int, j: int)
    requires
        0 <= i <= j <= s.len(),
        forall|t: int| i <= t < j ==> is_value_char(#[trigger] s[t]),
        j == s.len() || !is_value_char(s[j]),
    ensures
        value_run_end(s, i) == j,
    decreases j - i,
{
    if i < j {
        lemma_value_run_exact(s, i + 1, j);
    }
}

pub open spec fn has_cq_prefix(s: Seq<char>, i: int) -> bool {
    &&& 0 <= i
    &&& i + 4 <= s.len()
    &&& s[i] == '['
    &&& s[i + 1] == 'C'
    &&& s[i + 2] == 'Q'
    &&& s[i + 3] == ':'
}

/// Scans the field list of a segment starting at `j` (just after the
/// tag, so at a `,` or the closing `]`).  Returns the position one past
/// the closing bracket of the segment, or `None` when the text does not
/// follow the grammar.
pub open spec fn fields_match(s: Seq<char>, j: int) -> Option<int>
    decreases s.len() - j when 0 <= j <= s.len()
{
    if j < s.len() && s[j] == ']' {
        Some(j + 1)
    } else if j < s.len() && s[j] == ',' {
        let ne = word_run_end(s, j + 1);
        if ne == j + 1 {
            None
        } else if !(ne < s.len() && s[ne] == '=') {
            None
        } else {
            let ve = value_run_end(s, ne + 1);
            if ve == ne + 1 {
                None
            } else {
                proof {
                    lemma_word_run_bounds(s, j + 1);
                    lemma_value_run_bounds(s, ne + 1);
                }
                fields_match(s, ve)
            }
        }
    } else {
        None
    }
}

/// The length-delimiting match of one segment starting at `i`: the
/// position one past its closing bracket, or `None` when no segment
/// starts there.
pub open spec fn seg_match(s: Seq<char>, i: int) -> Option<int> {
    if has_cq_prefix(s, i) {
        let te = word_run_end(s, i + 4);
        if te == i + 4 {
            None
        } else {
            fields_match(s, te)
        }
    } else {
        None
    }
}

/// The `(name, raw value)` pairs of a well-formed field list starting at
/// `j`, in the order written.
pub open spec fn pairs_from(s: Seq<char>, j: int) -> Seq<(Seq<char>, Seq<char>)>
    decreases s.len() - j when 0 <= j <= s.len()
{
    if j < s.len() && s[j] == ',' {
        let ne = word_run_end(s, j + 1);
        if ne == j + 1 || !(ne < s.len() && s[ne] == '=') {
            Seq::empty()
        } else {
            let ve = value_run_end(s, ne + 1);
            if ve == ne + 1 {
                Seq::empty()
            } else {
                proof {
                    lemma_word_run_bounds(s, j + 1);
                    lemma_value_run_bounds(s, ne + 1);
                }
                seq![(s.subrange(j + 1, ne), s.subrange(ne + 1, ve))] + pairs_from(s, ve)
            }
        }
    } else {
        Seq::empty()
    }
}

// ------------------------------------------------------------------
// Encoding
// ------------------------------------------------------------------

/// The written form of a list of `(name, escaped value)` pairs: each
/// becomes `,name=value`.
pub open spec fn chunks_of(pairs: Seq<(Seq<char>, Seq<char>)>) -> Seq<char>
    decreases pairs.len(),
{
    if pairs.len() == 0 {
        Seq::empty()
    } else {
        seq![','] + pairs[0].0 + seq!['='] + pairs[0].1 + chunks_of(pairs.skip(1))
    }
}

/// The `(name, escaped rendered value)` pairs of the present fields from
/// position `k` on, in declaration order.
pub open spec fn enc_pairs(
    schema: Seq<(Seq<char>, FieldKind)>,
    vals: Seq<Option<FieldVal>>,
    k: int,
) -> Seq<(Seq<char>, Seq<char>)>
    decreases vals.len() - k when 0 <= k
{
    if k >= vals.len() {
        Seq::empty()
    } else {
        (match vals[k] {
            Some(v) => seq![(schema[k].0, escape_seq(render_val(v)))],
            None => Seq::empty(),
        }) + enc_pairs(schema, vals, k + 1)
    }
}

/// The inline notation of an instance: `[CQ:tag]` with one `,name=value`
/// chunk per present field, values escaped.
pub open spec fn encode_inline_spec(
    tag: Seq<char>,
    schema: Seq<(Seq<char>, FieldKind)>,
    vals: Seq<Option<FieldVal>>,
) -> Seq<char> {
    seq!['[', 'C', 'Q', ':'] + tag + chunks_of(enc_pairs(schema, vals, 0)) + seq![']']
}

/// Appends all characters of `add` to `out`.
pub fn push_all(out: &mut Vec<char>, add: &Vec<char>)
    ensures
        final(out)@ == old(out)@ + add@,
{
    let mut i: usize = 0;
    while i < add.len()
        invariant
            i <= add@.len(),
            out@ == old(out)@ + add@.take(i as int),
        decreases add.len() - i,
    {
        out.push(add[i]);
        proof {
            assert(old(out)@ + add@.take(i + 1)
                =~= (old(out)@ + add@.take(i as int)).push(add@[i as int]));
        }
        i = i + 1;
    }
    proof {
        assert(add@.take(add@.len() as int) =~= add@);
    }
}

/// The escaped inline rendering of one field value.
fn rendered_value(v: &FieldValue) -> (r: Vec<char>)
    ensures
        r@ == escape_seq(render_val(v@)),
{
    match v {
        FieldValue::Int(n) => {
            let mut raw: Vec<char> = Vec::new();
            push_dec_i64(*n, &mut raw);
            escape_chars(&raw)
        }
        FieldValue::Text(s) => {
            let raw = str_chars(s.as_str());
            escape_chars(&raw)
        }
    }
}

/// Encodes an instance of a shape into the inline notation.
pub fn encode_inline(tag: &str, decls: &Vec<FieldDecl>, vals: &Vec<Option<FieldValue>>) -> (r:
    String)
    requires
        decls@.len() == vals@.len(),
    ensures
        r@ == encode_inline_spec(tag@, schema_view(decls@), vals_view(vals@)),
{
    let ghost schema = schema_view(decls@);
    let ghost gvals = vals_view(vals@);
    let mut out: Vec<char> = Vec::new();
    out.push('[');
    out.push('C');
    out.push('Q');
    out.push(':');
    let tagv = str_chars(tag);
    push_all(&mut out, &tagv);
    proof {
        assert(out@ =~= seq!['[', 'C', 'Q', ':'] + tag@);
    }
    let ghost head = out@;
    let mut k: usize = 0;
    while k < vals.len()
        invariant
            k <= vals@.len(),
            decls@.len() == vals@.len(),
            schema == schema_view(decls@),
            gvals == vals_view(vals@),
            out@ + chunks_of(enc_pairs(schema, gvals, k as int))
                == head + chunks_of(enc_pairs(schema, gvals, 0)),
        decreases vals.len() - k,
    {
        match &vals[k] {
            Some(v) => {
                let ghost before = out@;
                out.push(',');
                let namev = str_chars(decls[k].name.as_str());
                push_all(&mut out, &namev);
                out.push('=');
                let valv = rendered_value(v);
                push_all(&mut out, &valv);
                proof {
                    let pr = enc_pairs(schema, gvals, k as int);
                    assert(pr[0] == (schema[k as int].0, escape_seq(render_val(gvals[k as int]->Some_0))));
                    assert(pr.skip(1) =~= enc_pairs(schema, gvals, k + 1));
                    assert(out@ =~= before + (seq![','] + pr[0].0 + seq!['='] + pr[0].1));
                    assert(chunks_of(pr) == seq![','] + pr[0].0 + seq!['='] + pr[0].1
                        + chunks_of(enc_pairs(schema, gvals, k + 1)));
                    assert(out@ + chunks_of(enc_pairs(schema, gvals, k + 1))
                        =~= before + chunks_of(pr));
                }
            }
            None => {
                proof {
                    assert(enc_pairs(schema, gvals, k as int)
                        =~= Seq::<(Seq<char>, Seq<char>)>::empty() + enc_pairs(schema, gvals, k + 1));
                    assert(Seq::<(Seq<char>, Seq<char>)>::empty() + enc_pairs(schema, gvals, k + 1)
                        =~= enc_pairs(schema, gvals, k + 1));
                }
            }
        }
        k = k + 1;
    }
    proof {
        assert(chunks_of(enc_pairs(schema, gvals, gvals.len() as int)) =~= Seq::<char>::empty());
        assert(out@ =~= head + chunks_of(enc_pairs(schema, gvals, 0)));
    }
    out.push(']');
    proof {
        assert(out@ =~= encode_inline_spec(tag@, schema, gvals));
    }
    string_of_chars(&out)
}

// ------------------------------------------------------------------
// Decoding
// ------------------------------------------------------------------

pub open spec fn none_fields(n: int) -> Seq<Option<FieldVal>> {
    Seq::new(n as nat, |i: int| None)
}

/// Typed parsing of one un-escaped field value.  Text is taken as it
/// stands; integer kinds parse the decimal notation and must lie in the
/// kind's range.
pub open spec fn parse_field(k: FieldKind, raw: Seq<char>) -> Option<FieldVal> {
    match k {
        FieldKind::Text => Some(FieldVal::Text(raw)),
        _ => match parse_sint_in(raw, kind_lo(k), kind_hi(k)) {
            Some(v) => Some(FieldVal::Int(v)),
            None => None,
        },
    }
}

/// The index of the first schema entry named `name` at or after `i`, or
/// `-1` when there is none.
pub open spec fn find_field_from(
    schema: Seq<(Seq<char>, FieldKind)>,
    name: Seq<char>,
    i: int,
) -> int
    decreases schema.len() - i when 0 <= i
{
    if i >= schema.len() {
        -1
    } else if schema[i].0 == name {
        i
    } else {
        find_field_from(schema, name, i + 1)
    }
}

/// Folds the written `(name, raw value)` pairs over the all-absent
/// instance: an unknown name or an unparseable value is an error, a
/// name written twice keeps its last value.
pub open spec fn apply_pairs(
    schema: Seq<(Seq<char>, FieldKind)>,
    pairs: Seq<(Seq<char>, Seq<char>)>,
    acc: Seq<Option<FieldVal>>,
) -> Result<Seq<Option<FieldVal>>, SegErr>
    decreases pairs.len(),
{
    if pairs.len() == 0 {
        Ok(acc)
    } else {
        let nm = pairs[0].0;
        let idx = find_field_from(schema, nm, 0);
        if idx < 0 {
            Err(SegErr::UnknownField { field: nm })
        } else {
            let un = unescape_seq(pairs[0].1);
            match parse_field(schema[idx].1, un) {
                Some(v) => apply_pairs(schema, pairs.skip(1), acc.update(idx, Some(v))),
                None => Err(SegErr::FieldTypeError { field: nm, value: un }),
            }
        }
    }
}

/// What decoding the inline notation returns, for every input: the text
/// must be exactly one segment, its tag must lower-case to the shape's
/// tag, and every written field must be declared and parseable.
pub open spec fn decode_inline_spec(
    tag: Seq<char>,
    schema: Seq<(Seq<char>, FieldKind)>,
    s: Seq<char>,
) -> Result<Seq<Option<FieldVal>>, SegErr> {
    if seg_match(s, 0) != Some(s.len() as int) {
        Err(SegErr::MalformedSegment { raw: s })
    } else {
        let te = word_run_end(s, 4);
        let found = lower_chars(s.subrange(4, te));
        if found != tag {
            Err(SegErr::TagMismatch { expected: tag, found })
        } else {
            apply_pairs(schema, pairs_from(s, te), none_fields(schema.len() as int))
        }
    }
}

/// The end of the word run starting at `i`.
pub fn scan_word(s: &Vec<char>, i: usize) -> (j: usize)
    requires
        i <= s@.len(),
    ensures
        j == word_run_end(s@, i as int),
        i <= j <= s@.len(),
{
    let mut j = i;
    while j < s.len() && word_char(s[j])
        invariant
            i <= j <= s@.len(),
            word_run_end(s@, i as int) == word_run_end(s@, j as int),
        decreases s@.len() - j,
    {
        j = j + 1;
    }
    j
}

/// The end of the value run starting at `i`.
pub fn scan_value(s: &Vec<char>, i: usize) -> (j: usize)
    requires
        i <= s@.len(),
    ensures
        j == value_run_end(s@, i as int),
        i <= j <= s@.len(),
{
    let mut j = i;
    while j < s.len() && s[j] != ',' && s[j] != ']'
        invariant
            i <= j <= s@.len(),
            value_run_end(s@, i as int) == value_run_end(s@, j as int),
        decreases s@.len() - j,
    {
        j = j + 1;
    }
    j
}

/// Scans the field list from `j` on, collecting each written pair.
pub(crate) fn scan_fields(s: &Vec<char>, j: usize, pairs: &mut Vec<(Vec<char>, Vec<char>)>) -> (end: Option<
    usize>)
    requires
        j <= s@.len(),
    ensures
        match end {
            Some(e) => {
                &&& fields_match(s@, j as int) == Some(e as int)
                &&& j < e <= s@.len()
                &&& pairs_view(final(pairs)@) == pairs_view(old(pairs)@) + pairs_from(s@, j as int)
            },
            None => fields_match(s@, j as int) is None,
        },
    decreases s@.len() - j,
{
    let n = s.len();
    if j < n && s[j] == ']' {
        proof {
            assert(pairs_from(s@, j as int) =~= Seq::<(Seq<char>, Seq<char>)>::empty());
            assert(pairs_view(old(pairs)@) + pairs_from(s@, j as int) =~= pairs_view(old(pairs)@));
        }
        return Some(j + 1);
    }
    if !(j < n && s[j] == ',') {
        return None;
    }
    let ne = scan_word(s, j + 1);
    if ne == j + 1 {
        return None;
    }
    if !(ne < n && s[ne] == '=') {
        return None;
    }
    let ve = scan_value(s, ne + 1);
    if ve == ne + 1 {
        return None;
    }
    let name = chars_sub(s, j + 1, ne);
    let value = chars_sub(s, ne + 1, ve);
    let ghost mid = pairs_view(pairs@);
    pairs.push((name, value));
    proof {
        assert(pairs_view(pairs@) =~= mid + seq![(s@.subrange(j + 1, ne as int), s@.subrange(ne + 1, ve as int))]);
    }
    let r = scan_fields(s, ve, pairs);
    proof {
        if r is Some {
            assert(pairs_view(final(pairs)@) =~= pairs_view(old(pairs)@) + pairs_from(s@, j as int));
        }
    }
    r
}

/// Looks a written field name up in the schema.
fn find_decl(decls: &Vec<FieldDecl>, name: &Vec<char>) -> (r: Option<usize>)
    ensures
        match r {
            Some(i) => i < decls@.len() && find_field_from(schema_view(decls@), name@, 0) == i as int,
            None => find_field_from(schema_view(decls@), name@, 0) == -1,
        },
{
    let mut i: usize = 0;
    while i < decls.len()
        invariant
            i <= decls@.len(),
            find_field_from(schema_view(decls@), name@, 0)
                == find_field_from(schema_view(decls@), name@, i as int),
        decreases decls@.len() - i,
    {
        let dn = str_chars(decls[i].name.as_str());
        if chars_eq(&dn, name) {
            return Some(i);
        }
        i = i + 1;
    }
    None
}

/// Typed parsing of one un-escaped value, as `parse_field` states it.
fn parse_field_value(kind: FieldKind, un: &Vec<char>) -> (r: Option<FieldValue>)
    ensures
        match r {
            Some(v) => parse_field(kind, un@) == Some(v@),
            None => parse_field(kind, un@) is None,
        },
{
    match kind {
        FieldKind::Text => Some(FieldValue::Text(string_of_chars(un))),
        FieldKind::Int8 => {
            match parse_dec_in(un, -128, 127) {
                Some(v) => Some(FieldValue::Int(v)),
                None => None,
            }
        }
        FieldKind::Int32 => {
            match parse_dec_in(un, -0x8000_0000, 0x7fff_ffff) {
                Some(v) => Some(FieldValue::Int(v)),
                None => None,
            }
        }
        FieldKind::Int64 => {
            match parse_dec_in(un, -0x8000_0000_0000_0000, 0x7fff_ffff_ffff_ffff) {
                Some(v) => Some(FieldValue::Int(v)),
                None => None,
            }
        }
    }
}

/// Decodes the inline notation of a shape with the given tag and schema.
/// The result mirrors `decode_inline_spec` exactly, including which error
/// is reported.
pub fn decode_inline(tag: &str, decls: &Vec<FieldDecl>, s: &Vec<char>) -> (r: Result<
    Vec<Option<FieldValue>>,
    SegmentError,
>)
    ensures
        match r {
            Ok(vals) => decode_inline_spec(tag@, schema_view(decls@), s@) == Ok::<_, SegErr>(
                vals_view(vals@),
            ),
            Err(e) => decode_inline_spec(tag@, schema_view(decls@), s@) == Err::<Seq<Option<FieldVal>>, _>(
                e@,
            ),
        },
{
    let ghost schema = schema_view(decls@);
    let n = s.len();
    if !(n >= 4 && s[0] == '[' && s[1] == 'C' && s[2] == 'Q' && s[3] == ':') {
        return Err(SegmentError::MalformedSegment { raw: string_of_chars(s) });
    }
    let te = scan_word(s, 4);
    if te == 4 {
        return Err(SegmentError::MalformedSegment { raw: string_of_chars(s) });
    }
    let mut pairs: Vec<(Vec<char>, Vec<char>)> = Vec::new();
    let end = scan_fields(s, te, &mut pairs);
    match end {
        None => {
            return Err(SegmentError::MalformedSegment { raw: string_of_chars(s) });
        }
        Some(e) => {
            if e != n {
                return Err(SegmentError::MalformedSegment { raw: string_of_chars(s) });
            }
        }
    }
    proof {
        assert(seg_match(s@, 0) == Some(s@.len() as int));
        assert(pairs_view(pairs@) =~= pairs_from(s@, te as int));
    }
    let tag_found = chars_sub(s, 4, te);
    let lowered = to_lower_chars(&tag_found);
    let expected = str_chars(tag);
    if !chars_eq(&lowered, &expected) {
        return Err(SegmentError::TagMismatch {
            expected: tag.to_owned(),
            found: string_of_chars(&lowered),
        });
    }
    let mut vals: Vec<Option<FieldValue>> = Vec::new();
    let mut i: usize = 0;
    while i < decls.len()
        invariant
            i <= decls@.len(),
            vals@.len() == i,
            forall|t: int| 0 <= t < i ==> vals@[t] is None,
        decreases decls@.len() - i,
    {
        vals.push(None);
        i = i + 1;
    }
    let ghost all_pairs = pairs_view(pairs@);
    let ghost target = apply_pairs(schema, all_pairs, none_fields(schema.len() as int));
    proof {
        assert(vals_view(vals@) =~= none_fields(schema.len() as int));
        assert(all_pairs.skip(0) =~= all_pairs);
        assert(decode_inline_spec(tag@, schema, s@) == target);
    }
    let mut p: usize = 0;
    while p < pairs.len()
        invariant
            p <= pairs@.len(),
            all_pairs == pairs_view(pairs@),
            schema == schema_view(decls@),
            vals@.len() == decls@.len(),
            target == apply_pairs(schema, all_pairs.skip(p as int), vals_view(vals@)),
            target == decode_inline_spec(tag@, schema, s@),
        decreases pairs@.len() - p,
    {
        let ghost rest = all_pairs.skip(p as int);
        proof {
            assert(rest[0] == all_pairs[p as int]);
            assert(rest.skip(1) =~= all_pairs.skip(p + 1));
        }
        let nm = &pairs[p].0;
        let idx = match find_decl(decls, nm) {
            Some(idx) => idx,
            None => {
                proof {
                    assert(apply_pairs(schema, rest, vals_view(vals@))
                        == Err::<Seq<Option<FieldVal>>, SegErr>(SegErr::UnknownField { field: nm@ }));
                }
                return Err(SegmentError::UnknownField { field: string_of_chars(nm) });
            }
        };
        let un = unescape_chars(&pairs[p].1);
        let fv = match parse_field_value(decls[idx].kind, &un) {
            Some(fv) => fv,
            None => {
                proof {
                    assert(schema[idx as int].1 == decls@[idx as int].kind);
                    assert(apply_pairs(schema, rest, vals_view(vals@))
                        == Err::<Seq<Option<FieldVal>>, SegErr>(SegErr::FieldTypeError {
                            field: nm@,
                            value: un@,
                        }));
                }
                return Err(SegmentError::FieldTypeError {
                    field: string_of_chars(nm),
                    value: string_of_chars(&un),
                });
            }
        };
        let ghost before = vals_view(vals@);
        vals.set(idx, Some(fv));
        proof {
            assert(vals_view(vals@) =~= before.update(idx as int, Some(fv@)));
        }
        p = p + 1;
    }
    proof {
        assert(all_pairs.skip(all_pairs.len() as int) =~= Seq::<(Seq<char>, Seq<char>)>::empty());
        assert(target == Ok::<_, SegErr>(vals_view(vals@)));
    }
    Ok(vals)
}

/// The contract every segment shape of the catalog implements: encoding
/// to and decoding from the two wire notations, plus the escaping rules
/// of the inline notation.
pub trait CQCode: Sized {
    /// Escapes the four reserved characters of the inline notation.
    fn escape(s: String) -> (r: String)
        ensures
            r@ == escape_seq(s@),
    {
        crate::escape::escape_str(s.as_str())
    }

    /// Replaces each escape code by its character; the exact inverse of
    /// `escape`.
    fn anti_escape(s: &str) -> (r: String)
        ensures
            r@ == unescape_seq(s@),
    {
        crate::escape::unescape_str(s)
    }

    /// The inline notation of this instance.
    fn to_string(&self) -> String;

    /// Decodes the inline notation.
    fn from_string(s: String) -> Result<Self, SegmentError>;

    /// The JSON notation of this instance.
    fn to_json(&self) -> Result<String, SegmentError>;

    /// Decodes the JSON notation.
    fn from_json(s: &str) -> Result<Self, SegmentError>;
}

/// A found field index lies within the schema.
pub proof fn lemma_find_field_range(schema: Seq<(Seq<char>, FieldKind)>, name: Seq<char>, i: int)
    requires
        0 <= i,
    ensures
        find_field_from(schema, name, i) == -1 || i <= find_field_from(schema, name, i)
            < schema.len(),
    decreases schema.len() - i,
{
    if i < schema.len() && schema[i].0 != name {
        lemma_find_field_range(schema, name, i + 1);
    }
}

/// Decoding returns as many fields as the schema declares.
pub proof fn lemma_apply_pairs_len(
    schema: Seq<(Seq<char>, FieldKind)>,
    pairs: Seq<(Seq<char>, Seq<char>)>,
    acc: Seq<Option<FieldVal>>,
)
    requires
        acc.len() == schema.len(),
        apply_pairs(schema, pairs, acc) is Ok,
    ensures
        apply_pairs(schema, pairs, acc)->Ok_0.len() == acc.len(),
    decreases pairs.len(),
{
    if pairs.len() > 0 {
        let nm = pairs[0].0;
        let idx = find_field_from(schema, nm, 0);
        lemma_find_field_range(schema, nm, 0);
        if idx >= 0 {
            match parse_field(schema[idx].1, unescape_seq(pairs[0].1)) {
                Some(v) => {
                    assert(apply_pairs(schema, pairs, acc) == apply_pairs(
                        schema,
                        pairs.skip(1),
                        acc.update(idx, Some(v)),
                    ));
                    assert(acc.update(idx, Some(v)).len() == acc.len());
                    lemma_apply_pairs_len(schema, pairs.skip(1), acc.update(idx, Some(v)));
                }
                None => {}
            }
        }
    }
}

/// As `lemma_apply_pairs_len`, for the JSON notation.
pub proof fn lemma_apply_jmembers_len(
    schema: Seq<(Seq<char>, FieldKind)>,
    dfs: Seq<(Seq<char>, JsonV)>,
    acc: Seq<Option<FieldVal>>,
)
    requires
        acc.len() == schema.len(),
        apply_jmembers(schema, dfs, acc) is Ok,
    ensures
        apply_jmembers(schema, dfs, acc)->Ok_0.len() == acc.len(),
    decreases dfs.len(),
{
    if dfs.len() > 0 {
        let nm = dfs[0].0;
        let idx = find_field_from(schema, nm, 0);
        lemma_find_field_range(schema, nm, 0);
        if idx >= 0 {
            match json_to_field(schema[idx].1, dfs[0].1) {
                Some(v) => {
                    assert(apply_jmembers(schema, dfs, acc) == apply_jmembers(
                        schema,
                        dfs.skip(1),
                        acc.update(idx, Some(v)),
                    ));
                    assert(acc.update(idx, Some(v)).len() == acc.len());
                    lemma_apply_jmembers_len(schema, dfs.skip(1), acc.update(idx, Some(v)));
                }
                None => {}
            }
        }
    }
}

/// Every field that decoding fills fits its declared kind.
pub proof fn lemma_apply_pairs_fits(
    schema: Seq<(Seq<char>, FieldKind)>,
    pairs: Seq<(Seq<char>, Seq<char>)>,
    acc: Seq<Option<FieldVal>>,
)
    requires
        wf_vals(schema, acc),
        apply_pairs(schema, pairs, acc) is Ok,
    ensures
        wf_vals(schema, apply_pairs(schema, pairs, acc)->Ok_0),
    decreases pairs.len(),
{
    if pairs.len() > 0 {
        let nm = pairs[0].0;
        let idx = find_field_from(schema, nm, 0);
        lemma_find_field_range(schema, nm, 0);
        if idx >= 0 {
            match parse_field(schema[idx].1, unescape_seq(pairs[0].1)) {
                Some(v) => {
                    let acc2 = acc.update(idx, Some(v));
                    assert(val_fits(schema[idx].1, v));
                    assert(wf_vals(schema, acc2));
                    lemma_apply_pairs_fits(schema, pairs.skip(1), acc2);
                }
                None => {}
            }
        }
    }
}

/// As `lemma_apply_pairs_fits`, for the JSON notation.
pub proof fn lemma_apply_jmembers_fits(
    schema: Seq<(Seq<char>, FieldKind)>,
    dfs: Seq<(Seq<char>, JsonV)>,
    acc: Seq<Option<FieldVal>>,
)
    requires
        wf_vals(schema, acc),
        apply_jmembers(schema, dfs, acc) is Ok,
    ensures
        wf_vals(schema, apply_jmembers(schema, dfs, acc)->Ok_0),
    decreases dfs.len(),
{
    if dfs.len() > 0 {
        let nm = dfs[0].0;
        let idx = find_field_from(schema, nm, 0);
        lemma_find_field_range(schema, nm, 0);
        if idx >= 0 {
            match json_to_field(schema[idx].1, dfs[0].1) {
                Some(v) => {
                    let acc2 = acc.update(idx, Some(v));
                    assert(val_fits(schema[idx].1, v));
                    assert(wf_vals(schema, acc2));
                    lemma_apply_jmembers_fits(schema, dfs.skip(1), acc2);
                }
                None => {}
            }
        }
    }
}

// ------------------------------------------------------------------
// The JSON notation: {"type":"tag","data":{...}}
// ------------------------------------------------------------------

pub open spec fn type_key() -> Seq<char> {
    seq!['t', 'y', 'p', 'e']
}

pub open spec fn data_key() -> Seq<char> {
    seq!['d', 'a', 't', 'a']
}

/// The JSON value of one field: integers as numbers, texts as strings.
pub open spec fn jfield_of(v: FieldVal) -> JsonV {
    match v {
        FieldVal::Int(n) => JsonV::Num(int_dec_chars(n)),
        FieldVal::Text(s) => JsonV::Str(s),
    }
}

/// The members of the `data` object: the present fields from `k` on, in
/// declaration order.
pub open spec fn enc_jmembers(
    schema: Seq<(Seq<char>, FieldKind)>,
    vals: Seq<Option<FieldVal>>,
    k: int,
) -> Seq<(Seq<char>, JsonV)>
    decreases vals.len() - k when 0 <= k
{
    if k >= vals.len() {
        Seq::empty()
    } else {
        (match vals[k] {
            Some(v) => seq![(schema[k].0, jfield_of(v))],
            None => Seq::empty(),
        }) + enc_jmembers(schema, vals, k + 1)
    }
}

/// The whole instance as a JSON value: a `type` string and a `data`
/// object holding exactly the present fields.
pub open spec fn json_shape_val(
    tag: Seq<char>,
    schema: Seq<(Seq<char>, FieldKind)>,
    vals: Seq<Option<FieldVal>>,
) -> JsonV {
    JsonV::Obj(
        seq![
            (type_key(), JsonV::Str(tag)),
            (data_key(), JsonV::Obj(enc_jmembers(schema, vals, 0))),
        ],
    )
}

/// The JSON notation of an instance: the compact text of its value.
pub open spec fn encode_json_spec(
    tag: Seq<char>,
    schema: Seq<(Seq<char>, FieldKind)>,
    vals: Seq<Option<FieldVal>>,
) -> Seq<char> {
    print_jv(json_shape_val(tag, schema, vals))
}

/// Encodes an instance of a shape into the JSON notation.
pub fn encode_json(tag: &str, decls: &Vec<FieldDecl>, vals: &Vec<Option<FieldValue>>) -> (r:
    String)
    requires
        decls@.len() == vals@.len(),
    ensures
        r@ == encode_json_spec(tag@, schema_view(decls@), vals_view(vals@)),
{
    let ghost schema = schema_view(decls@);
    let ghost gvals = vals_view(vals@);
    let mut members: Vec<JsonMember> = Vec::new();
    let mut k: usize = 0;
    proof {
        assert(obj_of(members@, 0) + enc_jmembers(schema, gvals, 0)
            =~= enc_jmembers(schema, gvals, 0));
    }
    while k < vals.len()
        invariant
            k <= vals@.len(),
            decls@.len() == vals@.len(),
            schema == schema_view(decls@),
            gvals == vals_view(vals@),
            obj_of(members@, 0) + enc_jmembers(schema, gvals, k as int) == enc_jmembers(
                schema,
                gvals,
                0,
            ),
        decreases vals.len() - k,
    {
        match &vals[k] {
            Some(v) => {
                let jval = match v {
                    FieldValue::Int(n) => {
                        let mut raw: Vec<char> = Vec::new();
                        push_dec_i64(*n, &mut raw);
                        JsonValue::Num(string_of_chars(&raw))
                    }
                    FieldValue::Text(s) => JsonValue::Str(s.clone()),
                };
                proof {
                    assert(jv_of(jval) == jfield_of(gvals[k as int]->Some_0));
                }
                let ghost pre = members@;
                members.push(JsonMember { key: decls[k].name.clone(), value: jval });
                proof {
                    let mv = (schema[k as int].0, jfield_of(gvals[k as int]->Some_0));
                    lemma_obj_of(members@, 0);
                    lemma_obj_of(pre, 0);
                    assert forall|u: int| 0 <= u < members@.len() implies #[trigger] obj_of(
                        members@,
                        0,
                    )[u] == (obj_of(pre, 0) + seq![mv])[u] by {
                        if u < pre.len() {
                            assert(members@[u] == pre[u]);
                        }
                    }
                    assert(obj_of(members@, 0) =~= obj_of(pre, 0) + seq![mv]);
                    let here = enc_jmembers(schema, gvals, k as int);
                    assert(here == seq![mv] + enc_jmembers(schema, gvals, k + 1));
                    assert(obj_of(members@, 0) + enc_jmembers(schema, gvals, k + 1)
                        =~= obj_of(pre, 0) + here);
                }
            }
            None => {
                proof {
                    assert(enc_jmembers(schema, gvals, k as int)
                        =~= Seq::<(Seq<char>, JsonV)>::empty() + enc_jmembers(schema, gvals, k + 1));
                    assert(Seq::<(Seq<char>, JsonV)>::empty() + enc_jmembers(schema, gvals, k + 1)
                        =~= enc_jmembers(schema, gvals, k + 1));
                }
            }
        }
        k = k + 1;
    }
    proof {
        assert(enc_jmembers(schema, gvals, gvals.len() as int)
            =~= Seq::<(Seq<char>, JsonV)>::empty());
        assert(obj_of(members@, 0) =~= enc_jmembers(schema, gvals, 0));
    }
    let mut top: Vec<JsonMember> = Vec::new();
    top.push(JsonMember { key: "type".to_owned(), value: JsonValue::Str(tag.to_owned()) });
    top.push(JsonMember { key: "data".to_owned(), value: JsonValue::Obj(members) });
    let tree = JsonValue::Obj(top);
    proof {
        reveal_strlit("type");
        reveal_strlit("data");
        assert("type"@ =~= type_key());
        assert("data"@ =~= data_key());
        lemma_obj_of(tree->Obj_0@, 0);
        assert(jv_of(tree)->Obj_0 =~= json_shape_val(tag@, schema, gvals)->Obj_0);
        assert(jv_of(tree) == json_shape_val(tag@, schema, gvals));
    }
    json_value_text(&tree)
}

/// The value of the first member named `key`, if any.
pub open spec fn obj_get(fields: Seq<(Seq<char>, JsonV)>, key: Seq<char>) -> Option<JsonV>
    decreases fields.len(),
{
    if fields.len() == 0 {
        None
    } else if fields[0].0 == key {
        Some(fields[0].1)
    } else {
        obj_get(fields.skip(1), key)
    }
}

/// Typed decoding of one JSON field value: no coercion between strings
/// and numbers, integer kinds must parse within range.
pub open spec fn json_to_field(k: FieldKind, v: JsonV) -> Option<FieldVal> {
    match k {
        FieldKind::Text => match v {
            JsonV::Str(s) => Some(FieldVal::Text(s)),
            _ => None,
        },
        _ => match v {
            JsonV::Num(lex) => match parse_sint_in(lex, kind_lo(k), kind_hi(k)) {
                Some(n) => Some(FieldVal::Int(n)),
                None => None,
            },
            _ => None,
        },
    }
}

/// Folds the members of the `data` object over the all-absent instance.
pub open spec fn apply_jmembers(
    schema: Seq<(Seq<char>, FieldKind)>,
    dfs: Seq<(Seq<char>, JsonV)>,
    acc: Seq<Option<FieldVal>>,
) -> Result<Seq<Option<FieldVal>>, SegErr>
    decreases dfs.len(),
{
    if dfs.len() == 0 {
        Ok(acc)
    } else {
        let nm = dfs[0].0;
        let idx = find_field_from(schema, nm, 0);
        if idx < 0 {
            Err(SegErr::UnknownField { field: nm })
        } else {
            match json_to_field(schema[idx].1, dfs[0].1) {
                Some(v) => apply_jmembers(schema, dfs.skip(1), acc.update(idx, Some(v))),
                None => Err(SegErr::FieldTypeError { field: nm, value: print_jv(dfs[0].1) }),
            }
        }
    }
}

/// What decoding the JSON notation returns, for every input: the text
/// must be one JSON object with a `type` string that lower-cases to the
/// shape's tag and a `data` object; missing fields are absent, never
/// defaulted.
pub open spec fn decode_json_spec(
    tag: Seq<char>,
    schema: Seq<(Seq<char>, FieldKind)>,
    s: Seq<char>,
) -> Result<Seq<Option<FieldVal>>, SegErr> {
    match parse_json_text(s) {
        None => Err(SegErr::MalformedSegment { raw: s }),
        Some(v) => match v {
            JsonV::Obj(fs) => match obj_get(fs, type_key()) {
                Some(JsonV::Str(t)) => if lower_chars(t) != tag {
                    Err(SegErr::TagMismatch { expected: tag, found: lower_chars(t) })
                } else {
                    match obj_get(fs, data_key()) {
                        Some(JsonV::Obj(dfs)) => apply_jmembers(
                            schema,
                            dfs,
                            none_fields(schema.len() as int),
                        ),
                        _ => Err(SegErr::MalformedSegment { raw: s }),
                    }
                },
                _ => Err(SegErr::MalformedSegment { raw: s }),
            },
            _ => Err(SegErr::MalformedSegment { raw: s }),
        },
    }
}

/// Finds the first member with the given key.
pub(crate) fn obj_find(fs: &Vec<JsonMember>, key: &Vec<char>) -> (r: Option<usize>)
    ensures
        match r {
            Some(i) => i < fs@.len() && fs@[i as int].key@ == key@ && obj_get(
                obj_of(fs@, 0),
                key@,
            ) == Some(jv_of(fs@[i as int].value)),
            None => obj_get(obj_of(fs@, 0), key@) is None,
        },
{
    let ghost all = obj_of(fs@, 0);
    proof {
        lemma_obj_of(fs@, 0);
        assert(all.skip(0) =~= all);
    }
    let mut i: usize = 0;
    while i < fs.len()
        invariant
            i <= fs@.len(),
            all == obj_of(fs@, 0),
            all.len() == fs@.len(),
            forall|u: int| 0 <= u < fs@.len() ==> #[trigger] all[u] == (
                fs@[u].key@,
                jv_of(fs@[u].value),
            ),
            obj_get(all, key@) == obj_get(all.skip(i as int), key@),
        decreases fs@.len() - i,
    {
        let kc = str_chars(fs[i].key.as_str());
        proof {
            assert(all.skip(i as int)[0] == all[i as int]);
            assert(all.skip(i as int).skip(1) =~= all.skip(i + 1));
        }
        if chars_eq(&kc, key) {
            return Some(i);
        }
        i = i + 1;
    }
    proof {
        assert(all.skip(all.len() as int) =~= Seq::<(Seq<char>, JsonV)>::empty());
    }
    None
}

/// Typed decoding of one member value, as `json_to_field` states it.
fn json_field_value(kind: FieldKind, v: &JsonValue) -> (r: Option<FieldValue>)
    ensures
        match r {
            Some(fv) => json_to_field(kind, jv_of(*v)) == Some(fv@),
            None => json_to_field(kind, jv_of(*v)) is None,
        },
{
    match kind {
        FieldKind::Text => match v {
            JsonValue::Str(s) => Some(FieldValue::Text(s.clone())),
            _ => None,
        },
        FieldKind::Int8 => match v {
            JsonValue::Num(lex) => {
                let lv = str_chars(lex.as_str());
                match parse_dec_in(&lv, -128, 127) {
                    Some(n) => Some(FieldValue::Int(n)),
                    None => None,
                }
            }
            _ => None,
        },
        FieldKind::Int32 => match v {
            JsonValue::Num(lex) => {
                let lv = str_chars(lex.as_str());
                match parse_dec_in(&lv, -0x8000_0000, 0x7fff_ffff) {
                    Some(n) => Some(FieldValue::Int(n)),
                    None => None,
                }
            }
            _ => None,
        },
        FieldKind::Int64 => match v {
            JsonValue::Num(lex) => {
                let lv = str_chars(lex.as_str());
                match parse_dec_in(&lv, -0x8000_0000_0000_0000, 0x7fff_ffff_ffff_ffff) {
                    Some(n) => Some(FieldValue::Int(n)),
                    None => None,
                }
            }
            _ => None,
        },
    }
}

/// Decodes the JSON notation of a shape with the given tag and schema.
/// The result mirrors `decode_json_spec` exactly, including which error
/// is reported.
pub fn decode_json(tag: &str, decls: &Vec<FieldDecl>, s: &Vec<char>) -> (r: Result<
    Vec<Option<FieldValue>>,
    SegmentError,
>)
    ensures
        match r {
            Ok(vals) => decode_json_spec(tag@, schema_view(decls@), s@) == Ok::<_, SegErr>(
                vals_view(vals@),
            ),
            Err(e) => decode_json_spec(tag@, schema_view(decls@), s@) == Err::<
                Seq<Option<FieldVal>>,
                _,
            >(e@),
        },
{
    let ghost schema = schema_view(decls@);
    let parsed = match crate::json::parse_json_chars(s) {
        Some(v) => v,
        None => {
            return Err(SegmentError::MalformedSegment { raw: string_of_chars(s) });
        }
    };
    let fs = match parsed {
        JsonValue::Obj(fs) => fs,
        _ => {
            return Err(SegmentError::MalformedSegment { raw: string_of_chars(s) });
        }
    };
    proof {
        assert(jv_of(parsed) == JsonV::Obj(obj_of(fs@, 0)));
    }
    let tkey = str_chars("type");
    proof {
        reveal_strlit("type");
        assert("type"@ =~= type_key());
    }
    let ti = match obj_find(&fs, &tkey) {
        Some(i) => i,
        None => {
            return Err(SegmentError::MalformedSegment { raw: string_of_chars(s) });
        }
    };
    let t = match &fs[ti].value {
        JsonValue::Str(t) => t.clone(),
        _ => {
            return Err(SegmentError::MalformedSegment { raw: string_of_chars(s) });
        }
    };
    let tv = str_chars(t.as_str());
    let lowered = to_lower_chars(&tv);
    let expected = str_chars(tag);
    if !chars_eq(&lowered, &expected) {
        return Err(SegmentError::TagMismatch {
            expected: tag.to_owned(),
            found: string_of_chars(&lowered),
        });
    }
    let dkey = str_chars("data");
    proof {
        reveal_strlit("data");
        assert("data"@ =~= data_key());
    }
    let di = match obj_find(&fs, &dkey) {
        Some(i) => i,
        None => {
            return Err(SegmentError::MalformedSegment { raw: string_of_chars(s) });
        }
    };
    let dfs = match &fs[di].value {
        JsonValue::Obj(dfs) => dfs,
        _ => {
            return Err(SegmentError::MalformedSegment { raw: string_of_chars(s) });
        }
    };
    proof {
        assert(jv_of(fs@[di as int].value) == JsonV::Obj(obj_of(dfs@, 0)));
    }
    let mut vals: Vec<Option<FieldValue>> = Vec::new();
    let mut i: usize = 0;
    while i < decls.len()
        invariant
            i <= decls@.len(),
            vals@.len() == i,
            forall|t: int| 0 <= t < i ==> vals@[t] is None,
        decreases decls@.len() - i,
    {
        vals.push(None);
        i = i + 1;
    }
    let ghost all_m = obj_of(dfs@, 0);
    let ghost target = apply_jmembers(schema, all_m, none_fields(schema.len() as int));
    proof {
        lemma_obj_of(dfs@, 0);
        assert(vals_view(vals@) =~= none_fields(schema.len() as int));
        assert(all_m.skip(0) =~= all_m);
        assert(decode_json_spec(tag@, schema, s@) == target);
    }
    let mut p: usize = 0;
    while p < dfs.len()
        invariant
            p <= dfs@.len(),
            all_m == obj_of(dfs@, 0),
            all_m.len() == dfs@.len(),
            forall|u: int| 0 <= u < dfs@.len() ==> #[trigger] all_m[u] == (
                dfs@[u].key@,
                jv_of(dfs@[u].value),
            ),
            schema == schema_view(decls@),
            vals@.len() == decls@.len(),
            target == apply_jmembers(schema, all_m.skip(p as int), vals_view(vals@)),
            target == decode_json_spec(tag@, schema, s@),
        decreases dfs@.len() - p,
    {
        let ghost rest = all_m.skip(p as int);
        proof {
            assert(rest[0] == all_m[p as int]);
            assert(rest.skip(1) =~= all_m.skip(p + 1));
        }
        let nm = str_chars(dfs[p].key.as_str());
        let idx = match find_decl(decls, &nm) {
            Some(idx) => idx,
            None => {
                proof {
                    assert(apply_jmembers(schema, rest, vals_view(vals@))
                        == Err::<Seq<Option<FieldVal>>, SegErr>(SegErr::UnknownField {
                        field: nm@,
                    }));
                }
                return Err(SegmentError::UnknownField { field: string_of_chars(&nm) });
            }
        };
        let fv = match json_field_value(decls[idx].kind, &dfs[p].value) {
            Some(fv) => fv,
            None => {
                proof {
                    assert(schema[idx as int].1 == decls@[idx as int].kind);
                    assert(apply_jmembers(schema, rest, vals_view(vals@))
                        == Err::<Seq<Option<FieldVal>>, SegErr>(SegErr::FieldTypeError {
                        field: nm@,
                        value: print_jv(jv_of(dfs@[p as int].value)),
                    }));
                }
                return Err(SegmentError::FieldTypeError {
                    field: string_of_chars(&nm),
                    value: crate::json::json_value_text(&dfs[p].value),
                });
            }
        };
        let ghost before = vals_view(vals@);
        vals.set(idx, Some(fv));
        proof {
            assert(vals_view(vals@) =~= before.update(idx as int, Some(fv@)));
        }
        p = p + 1;
    }
    proof {
        assert(all_m.skip(all_m.len() as int) =~= Seq::<(Seq<char>, JsonV)>::empty());
        assert(target == Ok::<_, SegErr>(vals_view(vals@)));
    }
    Ok(vals)
}

// ------------------------------------------------------------------
// The round trip: decoding an encoded instance gives the instance back
// ------------------------------------------------------------------

/// A shape tag as the catalog declares it: a non-empty lower-case word.
pub open spec fn wf_tag(tag: Seq<char>) -> bool {
    &&& tag.len() > 0
    &&& forall|i: int| 0 <= i < tag.len() ==> is_word_char(#[trigger] tag[i])
    &&& lower_chars(tag) == tag
}

/// A field name as a schema declares it: a non-empty word.
pub open spec fn wf_name(n: Seq<char>) -> bool {
    &&& n.len() > 0
    &&& forall|i: int| 0 <= i < n.len() ==> is_word_char(#[trigger] n[i])
}

/// A well-formed schema: every field name a word, no name twice.
pub open spec fn wf_schema(schema: Seq<(Seq<char>, FieldKind)>) -> bool {
    &&& forall|i: int| 0 <= i < schema.len() ==> wf_name(#[trigger] schema[i].0)
    &&& forall|i: int, j: int| 0 <= i < j < schema.len() ==> #[trigger] schema[i].0
        != #[trigger] schema[j].0
}

/// A value fits its declared kind.
pub open spec fn val_fits(k: FieldKind, v: FieldVal) -> bool {
    match v {
        FieldVal::Int(n) => !(k is Text) && kind_lo(k) <= n <= kind_hi(k),
        FieldVal::Text(s) => k is Text,
    }
}

/// The values of an instance, parallel to the schema, each fitting its
/// kind.
pub open spec fn wf_vals(schema: Seq<(Seq<char>, FieldKind)>, vals: Seq<Option<FieldVal>>) -> bool {
    &&& vals.len() == schema.len()
    &&& forall|i: int| 0 <= i < vals.len() ==> (#[trigger] vals[i] matches Some(v) ==> val_fits(
        schema[i].1,
        v,
    ))
}

/// Representable in the inline notation: a present text field must not
/// be empty, since the grammar has no empty values.
pub open spec fn inline_representable(vals: Seq<Option<FieldVal>>) -> bool {
    forall|i: int| 0 <= i < vals.len() ==> (#[trigger] vals[i] matches Some(FieldVal::Text(s))
        ==> s.len() > 0)
}

/// A raw written pair as encoding produces it: a word name and a
/// non-empty value free of `,` and `]`.
pub open spec fn wf_pair(pr: (Seq<char>, Seq<char>)) -> bool {
    &&& wf_name(pr.0)
    &&& pr.1.len() > 0
    &&& forall|i: int| 0 <= i < pr.1.len() ==> is_value_char(#[trigger] pr.1[i])
}

/// An escaped rendered value scans back to itself and parses back to
/// the value.
proof fn lemma_value_chunk(k: FieldKind, v: FieldVal)
    requires
        val_fits(k, v),
        v matches FieldVal::Text(s) ==> s.len() > 0,
    ensures
        escape_seq(render_val(v)).len() > 0,
        forall|i: int| 0 <= i < escape_seq(render_val(v)).len()
            ==> is_value_char(#[trigger] escape_seq(render_val(v))[i]),
        parse_field(k, unescape_seq(escape_seq(render_val(v)))) == Some(v),
{
    let raw = render_val(v);
    lemma_escape_chars(raw);
    lemma_unescape_escape(raw);
    match v {
        FieldVal::Int(n) => {
            lemma_rendered_int_chars(n);
            lemma_parse_of_rendered(n);
        }
        FieldVal::Text(s) => {}
    }
}

/// A text whose suffix from `p` is a written field list followed by the
/// closing bracket scans to exactly that list.
proof fn lemma_fields_parse(s: Seq<char>, p: int, pairs: Seq<(Seq<char>, Seq<char>)>)
    requires
        0 <= p <= s.len(),
        s.subrange(p, s.len() as int) == chunks_of(pairs) + seq![']'],
        forall|t: int| 0 <= t < pairs.len() ==> wf_pair(#[trigger] pairs[t]),
    ensures
        fields_match(s, p) == Some(s.len() as int),
        pairs_from(s, p) == pairs,
    decreases pairs.len(),
{
    let suf = s.subrange(p, s.len() as int);
    assert(suf.len() == s.len() - p);
    assert forall|t: int| 0 <= t < suf.len() implies #[trigger] s[p + t] == suf[t] by {}
    if pairs.len() == 0 {
        assert(suf =~= seq![']']);
        assert(s[p + 0] == suf[0]);
        assert(p + 1 == s.len());
        assert(pairs_from(s, p) =~= pairs);
    } else {
        let pr = pairs[0];
        let rest = pairs.skip(1);
        let nl = pr.0.len() as int;
        let vl = pr.1.len() as int;
        let body = chunks_of(pairs);
        assert(body == seq![','] + pr.0 + seq!['='] + pr.1 + chunks_of(rest));
        assert(body.len() == 2 + nl + vl + chunks_of(rest).len());
        let ne = p + 1 + nl;
        let ve = ne + 1 + vl;
        assert(body[0] == ',');
        assert(s[p + 0] == suf[0]);
        assert(s[p] == ',');
        assert forall|t: int| p + 1 <= t < ne implies is_word_char(#[trigger] s[t]) by {
            assert(body[t - p] == pr.0[t - p - 1]);
            assert(s[p + (t - p)] == suf[t - p]);
        }
        assert(body[ne - p] == '=');
        assert(s[p + (ne - p)] == suf[ne - p]);
        assert(s[ne] == '=');
        assert(!is_word_char('=')) by {
            assert('=' as u32 == 61);
        }
        lemma_word_run_exact(s, p + 1, ne);
        assert forall|t: int| ne + 1 <= t < ve implies is_value_char(#[trigger] s[t]) by {
            assert(body[t - p] == pr.1[t - ne - 1]);
            assert(s[p + (t - p)] == suf[t - p]);
        }
        // The character after the value is the next chunk's comma or the
        // closing bracket; either ends the value run.
        assert(ve - p < suf.len());
        assert(s[p + (ve - p)] == suf[ve - p]);
        if rest.len() == 0 {
            assert(chunks_of(rest) =~= Seq::<char>::empty());
            assert(ve - p == body.len());
            assert(suf[ve - p] == ']');
        } else {
            assert(chunks_of(rest) == seq![','] + rest[0].0 + seq!['='] + rest[0].1 + chunks_of(
                rest.skip(1)));
            assert(body[ve - p] == chunks_of(rest)[0]);
            assert(chunks_of(rest)[0] == ',');
            assert(suf[ve - p] == ',');
        }
        assert(!is_value_char(s[ve]));
        lemma_value_run_exact(s, ne + 1, ve);
        assert forall|u: int| 0 <= u < nl implies s.subrange(p + 1, ne)[u] == pr.0[u] by {
            assert(body[1 + u] == pr.0[u]);
            assert(s[p + (1 + u)] == suf[1 + u]);
        }
        assert(s.subrange(p + 1, ne) =~= pr.0);
        assert forall|u: int| 0 <= u < vl implies s.subrange(ne + 1, ve)[u] == pr.1[u] by {
            assert(body[2 + nl + u] == pr.1[u]);
            assert(s[p + (2 + nl + u)] == suf[2 + nl + u]);
            assert(ne + 1 + u == p + (2 + nl + u));
        }
        assert(s.subrange(ne + 1, ve) =~= pr.1);
        let tail = chunks_of(rest) + seq![']'];
        assert forall|u: int| 0 <= u < tail.len() implies s.subrange(ve, s.len() as int)[u]
            == tail[u] by {
            assert(suf[(ve - p) + u] == tail[u]);
            assert(s[p + ((ve - p) + u)] == suf[(ve - p) + u]);
        }
        assert(s.subrange(ve, s.len() as int) =~= tail);
        lemma_fields_parse(s, ve, rest);
        assert(fields_match(s, p) == Some(s.len() as int));
        assert(pairs_from(s, p) =~= pairs);
    }
}

/// Every pair the encoder writes is well formed.
proof fn lemma_enc_pairs_wf(
    schema: Seq<(Seq<char>, FieldKind)>,
    vals: Seq<Option<FieldVal>>,
    k: int,
)
    requires
        0 <= k,
        wf_schema(schema),
        wf_vals(schema, vals),
        inline_representable(vals),
    ensures
        forall|t: int| 0 <= t < enc_pairs(schema, vals, k).len()
            ==> wf_pair(#[trigger] enc_pairs(schema, vals, k)[t]),
    decreases vals.len() - k,
{
    if k < vals.len() {
        lemma_enc_pairs_wf(schema, vals, k + 1);
        let ps = enc_pairs(schema, vals, k);
        let tail = enc_pairs(schema, vals, k + 1);
        match vals[k] {
            Some(v) => {
                lemma_value_chunk(schema[k].1, v);
                assert(wf_pair((schema[k].0, escape_seq(render_val(v)))));
                assert forall|t: int| 0 <= t < ps.len() implies wf_pair(#[trigger] ps[t]) by {
                    if t > 0 {
                        assert(ps[t] == tail[t - 1]);
                    }
                }
            }
            None => {
                assert forall|t: int| 0 <= t < ps.len() implies wf_pair(#[trigger] ps[t]) by {
                    assert(ps[t] == tail[t]);
                }
            }
        }
    }
}

/// With distinct names, looking a declared name up finds its own slot.
proof fn lemma_find_own_name(schema: Seq<(Seq<char>, FieldKind)>, k: int, i: int)
    requires
        wf_schema(schema),
        0 <= i <= k < schema.len(),
    ensures
        find_field_from(schema, schema[k].0, i) == k,
    decreases k - i,
{
    if i < k {
        assert(schema[i].0 != schema[k].0);
        lemma_find_own_name(schema, k, i + 1);
    }
}

/// The instance with its fields up to `k` filled in and the rest absent.
spec fn partial_vals(vals: Seq<Option<FieldVal>>, k: int) -> Seq<Option<FieldVal>> {
    Seq::new(vals.len(), |i: int| if i < k {
        vals[i]
    } else {
        None
    })
}

/// Folding the encoder's pairs from `k` on over the partially filled
/// instance completes it.
proof fn lemma_apply_enc_pairs(
    schema: Seq<(Seq<char>, FieldKind)>,
    vals: Seq<Option<FieldVal>>,
    k: int,
)
    requires
        0 <= k <= vals.len(),
        wf_schema(schema),
        wf_vals(schema, vals),
        inline_representable(vals),
    ensures
        apply_pairs(schema, enc_pairs(schema, vals, k), partial_vals(vals, k))
            == Ok::<Seq<Option<FieldVal>>, SegErr>(vals),
    decreases vals.len() - k,
{
    if k == vals.len() {
        assert(enc_pairs(schema, vals, k) =~= Seq::<(Seq<char>, Seq<char>)>::empty());
        assert(partial_vals(vals, k) =~= vals);
    } else {
        lemma_apply_enc_pairs(schema, vals, k + 1);
        match vals[k] {
            Some(v) => {
                let pr = (schema[k].0, escape_seq(render_val(v)));
                let ps = enc_pairs(schema, vals, k);
                assert(ps == seq![pr] + enc_pairs(schema, vals, k + 1));
                assert(ps[0] == pr);
                assert(ps.skip(1) =~= enc_pairs(schema, vals, k + 1));
                lemma_find_own_name(schema, k, 0);
                lemma_value_chunk(schema[k].1, v);
                assert(partial_vals(vals, k).update(k, Some(v)) =~= partial_vals(vals, k + 1));
            }
            None => {
                assert(enc_pairs(schema, vals, k) =~= enc_pairs(schema, vals, k + 1));
                assert(partial_vals(vals, k) =~= partial_vals(vals, k + 1));
            }
        }
    }
}

/// Every `data` member the encoder writes is printable.
proof fn lemma_enc_jmembers_wf(
    schema: Seq<(Seq<char>, FieldKind)>,
    vals: Seq<Option<FieldVal>>,
    k: int,
)
    requires
        0 <= k,
    ensures
        forall|t: int| 0 <= t < enc_jmembers(schema, vals, k).len() ==> crate::json::wf_jv(
            #[trigger] enc_jmembers(schema, vals, k)[t].1,
        ),
    decreases vals.len() - k,
{
    if k < vals.len() {
        lemma_enc_jmembers_wf(schema, vals, k + 1);
        let ms = enc_jmembers(schema, vals, k);
        let tail = enc_jmembers(schema, vals, k + 1);
        match vals[k] {
            Some(v) => {
                match v {
                    FieldVal::Int(n) => {
                        crate::json::lemma_rendered_num_token(n);
                    }
                    FieldVal::Text(_) => {}
                }
                assert forall|t: int| 0 <= t < ms.len() implies crate::json::wf_jv(
                    #[trigger] ms[t].1,
                ) by {
                    if t > 0 {
                        assert(ms[t] == tail[t - 1]);
                    }
                }
            }
            None => {
                assert forall|t: int| 0 <= t < ms.len() implies crate::json::wf_jv(
                    #[trigger] ms[t].1,
                ) by {
                    assert(ms[t] == tail[t]);
                }
            }
        }
    }
}

/// Folding the encoder's `data` members from `k` on over the partially
/// filled instance completes it.
proof fn lemma_apply_enc_jmembers(
    schema: Seq<(Seq<char>, FieldKind)>,
    vals: Seq<Option<FieldVal>>,
    k: int,
)
    requires
        0 <= k <= vals.len(),
        wf_schema(schema),
        wf_vals(schema, vals),
    ensures
        apply_jmembers(schema, enc_jmembers(schema, vals, k), partial_vals(vals, k))
            == Ok::<Seq<Option<FieldVal>>, SegErr>(vals),
    decreases vals.len() - k,
{
    if k == vals.len() {
        assert(enc_jmembers(schema, vals, k) =~= Seq::<(Seq<char>, JsonV)>::empty());
        assert(partial_vals(vals, k) =~= vals);
    } else {
        lemma_apply_enc_jmembers(schema, vals, k + 1);
        match vals[k] {
            Some(v) => {
                let mv = (schema[k].0, jfield_of(v));
                let ms = enc_jmembers(schema, vals, k);
                assert(ms == seq![mv] + enc_jmembers(schema, vals, k + 1));
                assert(ms[0] == mv);
                assert(ms.skip(1) =~= enc_jmembers(schema, vals, k + 1));
                lemma_find_own_name(schema, k, 0);
                assert(json_to_field(schema[k].1, jfield_of(v)) == Some(v)) by {
                    match v {
                        FieldVal::Int(n) => {
                            lemma_parse_of_rendered(n);
                        }
                        FieldVal::Text(_) => {}
                    }
                }
                assert(partial_vals(vals, k).update(k, Some(v)) =~= partial_vals(vals, k + 1));
            }
            None => {
                assert(enc_jmembers(schema, vals, k) =~= enc_jmembers(schema, vals, k + 1));
                assert(partial_vals(vals, k) =~= partial_vals(vals, k + 1));
            }
        }
    }
}

/// The round trip of the JSON notation: decoding an encoded instance of
/// a well-formed shape yields exactly that instance.
pub proof fn lemma_json_round_trip(
    tag: Seq<char>,
    schema: Seq<(Seq<char>, FieldKind)>,
    vals: Seq<Option<FieldVal>>,
)
    requires
        wf_tag(tag),
        wf_schema(schema),
        wf_vals(schema, vals),
    ensures
        decode_json_spec(tag, schema, encode_json_spec(tag, schema, vals))
            == Ok::<Seq<Option<FieldVal>>, SegErr>(vals),
{
    let members = enc_jmembers(schema, vals, 0);
    let tree = json_shape_val(tag, schema, vals);
    let fs = tree->Obj_0;
    lemma_enc_jmembers_wf(schema, vals, 0);
    assert(crate::json::wf_jv(JsonV::Obj(members))) by {
        assert forall|t: int| 0 <= t < members.len() implies crate::json::wf_jv(
            #[trigger] members[t].1,
        ) by {
            assert(members[t] == enc_jmembers(schema, vals, 0)[t]);
        }
    }
    assert(crate::json::wf_jv(tree)) by {
        assert forall|t: int| 0 <= t < fs.len() implies crate::json::wf_jv(
            #[trigger] fs[t].1,
        ) by {
            if t == 0 {
                assert(fs[0].1 == JsonV::Str(tag));
            } else {
                assert(fs[t].1 == JsonV::Obj(members));
            }
        }
    }
    crate::json::lemma_parse_print_text(tree);
    assert(obj_get(fs, type_key()) == Some(JsonV::Str(tag))) by {
        assert(fs[0].0 == type_key());
    }
    assert(type_key() != data_key()) by {
        assert(type_key()[0] == 't');
        assert(data_key()[0] == 'd');
    }
    assert(obj_get(fs, data_key()) == Some(JsonV::Obj(members))) by {
        assert(fs[0].0 != data_key());
        assert(fs.skip(1) =~= seq![(data_key(), JsonV::Obj(members))]);
        assert(fs.skip(1)[0].0 == data_key());
        assert(obj_get(fs.skip(1), data_key()) == Some(fs.skip(1)[0].1));
    }
    lemma_apply_enc_jmembers(schema, vals, 0);
    assert(none_fields(schema.len() as int) =~= partial_vals(vals, 0));
}

/// Escaping leaves a text of word characters unchanged.
proof fn lemma_json_escape_plain(s: Seq<char>)
    requires
        forall|i: int| 0 <= i < s.len() ==> is_word_char(#[trigger] s[i]),
    ensures
        crate::json::json_escape(s) == s,
    decreases s.len(),
{
    if s.len() > 0 {
        assert(is_word_char(s[0]));
        assert(crate::json::json_escape_char(s[0]) =~= seq![s[0]]);
        assert(forall|i: int| 0 <= i < s.skip(1).len() ==> is_word_char(#[trigger] s.skip(1)[i]));
        lemma_json_escape_plain(s.skip(1));
        assert(crate::json::json_escape(s) =~= s);
    }
}

proof fn lemma_enc_pairs_none(schema: Seq<(Seq<char>, FieldKind)>, n: int, k: int)
    requires
        0 <= k,
        0 <= n,
    ensures
        enc_pairs(schema, none_fields(n), k) == Seq::<(Seq<char>, Seq<char>)>::empty(),
    decreases n - k,
{
    if k < n {
        lemma_enc_pairs_none(schema, n, k + 1);
        assert(none_fields(n)[k] is None);
        assert(enc_pairs(schema, none_fields(n), k) =~= Seq::<(Seq<char>, Seq<char>)>::empty()
            + enc_pairs(schema, none_fields(n), k + 1));
        assert((Seq::<(Seq<char>, Seq<char>)>::empty() + enc_pairs(schema, none_fields(n), k + 1))
            =~= Seq::<(Seq<char>, Seq<char>)>::empty());
    } else {
        assert(enc_pairs(schema, none_fields(n), k) =~= Seq::<(Seq<char>, Seq<char>)>::empty());
    }
}

proof fn lemma_enc_jmembers_none(schema: Seq<(Seq<char>, FieldKind)>, n: int, k: int)
    requires
        0 <= k,
        0 <= n,
    ensures
        enc_jmembers(schema, none_fields(n), k) == Seq::<(Seq<char>, JsonV)>::empty(),
    decreases n - k,
{
    if k < n {
        lemma_enc_jmembers_none(schema, n, k + 1);
        assert(none_fields(n)[k] is None);
        assert(enc_jmembers(schema, none_fields(n), k) =~= Seq::<(Seq<char>, JsonV)>::empty()
            + enc_jmembers(schema, none_fields(n), k + 1));
        assert((Seq::<(Seq<char>, JsonV)>::empty() + enc_jmembers(schema, none_fields(n), k + 1))
            =~= Seq::<(Seq<char>, JsonV)>::empty());
    } else {
        assert(enc_jmembers(schema, none_fields(n), k) =~= Seq::<(Seq<char>, JsonV)>::empty());
    }
}

/// Absent-field omission: an instance with no present field encodes to
/// the bare segment marker in both notations — `[CQ:tag]` inline and
/// `{"type":"tag","data":{}}` in JSON — and decoding either marker
/// yields the all-absent instance.
#[verifier::rlimit(60)]
#[verifier::spinoff_prover]
pub proof fn lemma_absent_fields(tag: Seq<char>, schema: Seq<(Seq<char>, FieldKind)>)
    requires
        wf_tag(tag),
        wf_schema(schema),
    ensures
        encode_inline_spec(tag, schema, none_fields(schema.len() as int)) == seq![
            '[',
            'C',
            'Q',
            ':',
        ] + tag + seq![']'],
        encode_json_spec(tag, schema, none_fields(schema.len() as int)) == seq![
            '{',
            '"',
            't',
            'y',
            'p',
            'e',
            '"',
            ':',
            '"',
        ] + tag + seq!['"', ',', '"', 'd', 'a', 't', 'a', '"', ':', '{', '}', '}'],
        decode_inline_spec(
            tag,
            schema,
            encode_inline_spec(tag, schema, none_fields(schema.len() as int)),
        ) == Ok::<Seq<Option<FieldVal>>, SegErr>(none_fields(schema.len() as int)),
        decode_json_spec(
            tag,
            schema,
            encode_json_spec(tag, schema, none_fields(schema.len() as int)),
        ) == Ok::<Seq<Option<FieldVal>>, SegErr>(none_fields(schema.len() as int)),
{
    let n = schema.len() as int;
    let nf = none_fields(n);
    assert(wf_vals(schema, nf));
    assert(inline_representable(nf));
    lemma_enc_pairs_none(schema, n, 0);
    assert(chunks_of(enc_pairs(schema, nf, 0)) == Seq::<char>::empty());
    assert(encode_inline_spec(tag, schema, nf) =~= seq!['[', 'C', 'Q', ':'] + tag + seq![']']);
    lemma_enc_jmembers_none(schema, n, 0);
    let tree = json_shape_val(tag, schema, nf);
    let fs = tree->Obj_0;
    assert(print_jv(fs[1].1) =~= seq!['{', '}']) by {
        assert(crate::json::print_fields(Seq::<(Seq<char>, JsonV)>::empty(), 0)
            == Seq::<char>::empty());
    }
    lemma_json_escape_plain(tag);
    lemma_json_escape_plain(type_key());
    lemma_json_escape_plain(data_key());
    assert(print_jv(fs[0].1) =~= seq!['"'] + tag + seq!['"']);
    assert(crate::json::print_string(type_key()) =~= seq!['"', 't', 'y', 'p', 'e', '"']);
    assert(crate::json::print_string(data_key()) =~= seq!['"', 'd', 'a', 't', 'a', '"']);
    assert(crate::json::print_fields(fs, 0) == crate::json::print_string(fs[0].0) + seq![':']
        + print_jv(fs[0].1) + seq![','] + crate::json::print_fields(fs, 1));
    assert(crate::json::print_fields(fs, 1) == crate::json::print_string(fs[1].0) + seq![':']
        + print_jv(fs[1].1));
    assert(encode_json_spec(tag, schema, nf) =~= seq!['{', '"', 't', 'y', 'p', 'e', '"', ':', '"']
        + tag + seq!['"', ',', '"', 'd', 'a', 't', 'a', '"', ':', '{', '}', '}']);
    lemma_inline_round_trip(tag, schema, nf);
    lemma_json_round_trip(tag, schema, nf);
}

/// The round trip of the inline notation: decoding an encoded instance
/// of a well-formed shape yields exactly that instance, for every
/// representable instance.
pub proof fn lemma_inline_round_trip(
    tag: Seq<char>,
    schema: Seq<(Seq<char>, FieldKind)>,
    vals: Seq<Option<FieldVal>>,
)
    requires
        wf_tag(tag),
        wf_schema(schema),
        wf_vals(schema, vals),
        inline_representable(vals),
    ensures
        decode_inline_spec(tag, schema, encode_inline_spec(tag, schema, vals))
            == Ok::<Seq<Option<FieldVal>>, SegErr>(vals),
{
    let enc = encode_inline_spec(tag, schema, vals);
    let encp = enc_pairs(schema, vals, 0);
    let body = chunks_of(encp);
    let te = 4 + tag.len() as int;
    assert(enc == seq!['[', 'C', 'Q', ':'] + tag + body + seq![']']);
    assert(has_cq_prefix(enc, 0));
    lemma_enc_pairs_wf(schema, vals, 0);
    // The tag run ends exactly at the comma or closing bracket after it.
    assert forall|t: int| 4 <= t < te implies is_word_char(#[trigger] enc[t]) by {
        assert(enc[t] == tag[t - 4]);
    }
    if encp.len() == 0 {
        assert(body =~= Seq::<char>::empty());
        assert(enc[te] == ']');
    } else {
        assert(body == seq![','] + encp[0].0 + seq!['='] + encp[0].1 + chunks_of(encp.skip(1)));
        assert(enc[te] == body[0]);
        assert(enc[te] == ',');
    }
    assert(!is_word_char(enc[te]));
    lemma_word_run_exact(enc, 4, te);
    assert(enc.subrange(te, enc.len() as int) =~= body + seq![']']);
    lemma_fields_parse(enc, te, encp);
    assert(seg_match(enc, 0) == Some(enc.len() as int));
    assert(enc.subrange(4, te) =~= tag);
    assert(lower_chars(enc.subrange(4, te)) == tag);
    lemma_apply_enc_pairs(schema, vals, 0);
    assert(none_fields(schema.len() as int) =~= partial_vals(vals, 0));
    assert(decode_inline_spec(tag, schema, enc) == Ok::<Seq<Option<FieldVal>>, SegErr>(vals));
}

} // verus!
