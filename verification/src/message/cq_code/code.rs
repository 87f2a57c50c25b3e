//! The segment catalog: one struct per segment shape, each going
//! through the shared generic codec with its own tag and schema.
//!
//! Every field is optional; absence round-trips.  Boolean-like fields
//! travel as the digits `0`/`1` and are typed `BoolInCQCode`.

#![allow(non_snake_case)]

use vstd::prelude::*;
use crate::error::{SegmentError, SegErr};
use crate::text::{str_chars, string_of_chars, to_lower_chars, chars_eq, push_dec_i64};
use crate::message::cq_code::{
    CQCode, FieldDecl, FieldKind, FieldValue, FieldVal, schema_view, vals_view,
    encode_inline, decode_inline, encode_json, decode_json,
    encode_inline_spec, decode_inline_spec, encode_json_spec, decode_json_spec,
    wf_tag, wf_schema, wf_vals, inline_representable,
    lemma_inline_round_trip,
    lemma_apply_pairs_len, lemma_apply_pairs_fits,
    lemma_apply_jmembers_len, lemma_apply_jmembers_fits,
    none_fields, apply_pairs, apply_jmembers, pairs_from, word_run_end,
    obj_get, type_key, data_key, seg_match, push_all, scan_fields, obj_find,
};
use crate::message::{Message, MessageType, join_comma, tokenize_spec, render_msg, lemma_join_push};
use crate::json::{JsonValue, JsonMember, JsonV, jv_of, arr_of, obj_of, lemma_arr_of, lemma_obj_of, parse_json_text, print_jv};

verus! {

/// In some segment shapes a field can only be `0` or `1` and acts as a
/// boolean, but both notations write the digits, never `true`/`false`;
/// such fields are typed as this small integer.
pub type BoolInCQCode = i8;

/// A QQ emoji reference.
#[derive(Debug)]
pub struct Face {
    pub id: Option<i32>,
}

impl Face {
    /// The shape's canonical tag.
    pub open spec fn tag_spec() -> Seq<char> {
        seq!['f', 'a', 'c', 'e']
    }

    /// The shape's schema: wire names and kinds, in declaration order.
    pub open spec fn schema_spec() -> Seq<(Seq<char>, FieldKind)> {
        seq![
            (seq!['i', 'd'], FieldKind::Int32),
        ]
    }

    /// The instance's field values, parallel to the schema.
    pub open spec fn fields_spec(&self) -> Seq<Option<FieldVal>> {
        seq![
            match self.id { Some(v) => Some(FieldVal::Int(v as int)), None => None },
        ]
    }

    fn decls() -> (r: Vec<FieldDecl>)
        ensures
            schema_view(r@) == Self::schema_spec(),
    {
        let mut r: Vec<FieldDecl> = Vec::new();
        r.push(FieldDecl { name: "id".to_owned(), kind: FieldKind::Int32 });
        proof {
            reveal_strlit("id");
            assert("id"@ =~= seq!['i', 'd']);
            assert(schema_view(r@) =~= Self::schema_spec());
        }
        r
    }

    fn to_vals(&self) -> (r: Vec<Option<FieldValue>>)
        ensures
            vals_view(r@) == self.fields_spec(),
    {
        let mut r: Vec<Option<FieldValue>> = Vec::new();
        r.push(match &self.id {
            Some(v) => Some(FieldValue::Int(*v as i64)),
            None => None,
        });
        proof {
            assert(vals_view(r@) =~= self.fields_spec());
        }
        r
    }

    fn from_vals(vals: &Vec<Option<FieldValue>>) -> (r: Face)
        requires
            wf_vals(Self::schema_spec(), vals_view(vals@)),
        ensures
            r.fields_spec() == vals_view(vals@),
    {
        let r = Face {
            id: match &vals[0] {
                Some(FieldValue::Int(n)) => Some(#[verifier::truncate] (*n as i32)),
                _ => None,
            },
        };
        proof {
            assert(r.fields_spec() =~= vals_view(vals@));
        }
        r
    }
}

impl CQCode for Face {
    fn to_string(&self) -> (r: String)
        ensures
            r@ == encode_inline_spec(Face::tag_spec(), Face::schema_spec(), self.fields_spec()),
    {
        let d = Face::decls();
        let v = self.to_vals();
        proof {
            reveal_strlit("face");
            assert("face"@ =~= Face::tag_spec());
            assert(schema_view(d@).len() == d@.len());
            assert(vals_view(v@).len() == v@.len());
        }
        encode_inline("face", &d, &v)
    }

    fn from_string(s: String) -> (r: Result<Face, SegmentError>)
        ensures
            match r {
                Ok(x) => decode_inline_spec(Face::tag_spec(), Face::schema_spec(), s@)
                    == Ok::<_, SegErr>(x.fields_spec()),
                Err(e) => decode_inline_spec(Face::tag_spec(), Face::schema_spec(), s@)
                    == Err::<Seq<Option<FieldVal>>, _>(e@),
            },
    {
        let chars = str_chars(s.as_str());
        let d = Face::decls();
        proof {
            reveal_strlit("face");
            assert("face"@ =~= Face::tag_spec());
        }
        match decode_inline("face", &d, &chars) {
            Ok(vals) => {
                proof {
                    let schema = Face::schema_spec();
                    let pairs = pairs_from(s@, word_run_end(s@, 4));
                    let acc = none_fields(schema.len() as int);
                    assert(apply_pairs(schema, pairs, acc) == Ok::<_, SegErr>(vals_view(vals@)));
                    lemma_apply_pairs_len(schema, pairs, acc);
                    lemma_apply_pairs_fits(schema, pairs, acc);
                }
                Ok(Face::from_vals(&vals))
            }
            Err(e) => Err(e),
        }
    }

    fn to_json(&self) -> (r: Result<String, SegmentError>)
        ensures
            r matches Ok(t) && t@ == encode_json_spec(
                Face::tag_spec(),
                Face::schema_spec(),
                self.fields_spec(),
            ),
    {
        let d = Face::decls();
        let v = self.to_vals();
        proof {
            reveal_strlit("face");
            assert("face"@ =~= Face::tag_spec());
            assert(schema_view(d@).len() == d@.len());
            assert(vals_view(v@).len() == v@.len());
        }
        Ok(encode_json("face", &d, &v))
    }

    fn from_json(s: &str) -> (r: Result<Face, SegmentError>)
        ensures
            match r {
                Ok(x) => decode_json_spec(Face::tag_spec(), Face::schema_spec(), s@)
                    == Ok::<_, SegErr>(x.fields_spec()),
                Err(e) => decode_json_spec(Face::tag_spec(), Face::schema_spec(), s@)
                    == Err::<Seq<Option<FieldVal>>, _>(e@),
            },
    {
        let chars = str_chars(s);
        let d = Face::decls();
        proof {
            reveal_strlit("face");
            assert("face"@ =~= Face::tag_spec());
        }
        match decode_json("face", &d, &chars) {
            Ok(vals) => {
                proof {
                    let schema = Face::schema_spec();
                    let acc = none_fields(schema.len() as int);
                    match parse_json_text(s@) {
                        Some(JsonV::Obj(fs)) => {
                            match obj_get(fs, data_key()) {
                                Some(JsonV::Obj(dfs)) => {
                                    assert(apply_jmembers(schema, dfs, acc)
                                        == Ok::<_, SegErr>(vals_view(vals@)));
                                    lemma_apply_jmembers_len(schema, dfs, acc);
                                    lemma_apply_jmembers_fits(schema, dfs, acc);
                                }
                                _ => {}
                            }
                        }
                        _ => {}
                    }
                }
                Ok(Face::from_vals(&vals))
            }
            Err(e) => Err(e),
        }
    }
}

/// Round trip: decoding the encoded form of a representable instance
/// of this shape gives its fields back, in both notations.
#[verifier::rlimit(30)]
pub proof fn lemma_face_round_trip(x: Face)
    ensures
        decode_inline_spec(
            Face::tag_spec(),
            Face::schema_spec(),
            encode_inline_spec(Face::tag_spec(), Face::schema_spec(), x.fields_spec()),
        ) == Ok::<_, SegErr>(x.fields_spec()),
        decode_json_spec(
            Face::tag_spec(),
            Face::schema_spec(),
            encode_json_spec(Face::tag_spec(), Face::schema_spec(), x.fields_spec()),
        ) == Ok::<_, SegErr>(x.fields_spec()),
{
    assert(crate::text::lower_chars(Face::tag_spec()) =~= Face::tag_spec());
    assert(wf_tag(Face::tag_spec()));
    assert(wf_schema(Face::schema_spec()));
    assert(wf_vals(Face::schema_spec(), x.fields_spec()));
    assert(inline_representable(x.fields_spec()));
    lemma_inline_round_trip(Face::tag_spec(), Face::schema_spec(), x.fields_spec());
    crate::message::cq_code::lemma_json_round_trip(Face::tag_spec(), Face::schema_spec(), x.fields_spec());
}

/// A voice recording.
#[derive(Debug)]
pub struct Record {
    pub file: Option<String>,
    pub magic: Option<BoolInCQCode>,
    pub url: Option<String>,
    pub cache: Option<BoolInCQCode>,
    pub proxy: Option<BoolInCQCode>,
    pub timeout: Option<i32>,
}

impl Record {
    /// The shape's canonical tag.
    pub open spec fn tag_spec() -> Seq<char> {
        seq!['r', 'e', 'c', 'o', 'r', 'd']
    }

    /// The shape's schema: wire names and kinds, in declaration order.
    pub open spec fn schema_spec() -> Seq<(Seq<char>, FieldKind)> {
        seq![
            (seq!['f', 'i', 'l', 'e'], FieldKind::Text),
            (seq!['m', 'a', 'g', 'i', 'c'], FieldKind::Int8),
            (seq!['u', 'r', 'l'], FieldKind::Text),
            (seq!['c', 'a', 'c', 'h', 'e'], FieldKind::Int8),
            (seq!['p', 'r', 'o', 'x', 'y'], FieldKind::Int8),
            (seq!['t', 'i', 'm', 'e', 'o', 'u', 't'], FieldKind::Int32),
        ]
    }

    /// The instance's field values, parallel to the schema.
    pub open spec fn fields_spec(&self) -> Seq<Option<FieldVal>> {
        seq![
            match self.file { Some(s) => Some(FieldVal::Text(s@)), None => None },
            match self.magic { Some(v) => Some(FieldVal::Int(v as int)), None => None },
            match self.url { Some(s) => Some(FieldVal::Text(s@)), None => None },
            match self.cache { Some(v) => Some(FieldVal::Int(v as int)), None => None },
            match self.proxy { Some(v) => Some(FieldVal::Int(v as int)), None => None },
            match self.timeout { Some(v) => Some(FieldVal::Int(v as int)), None => None },
        ]
    }

    fn decls() -> (r: Vec<FieldDecl>)
        ensures
            schema_view(r@) == Self::schema_spec(),
    {
        let mut r: Vec<FieldDecl> = Vec::new();
        r.push(FieldDecl { name: "file".to_owned(), kind: FieldKind::Text });
        r.push(FieldDecl { name: "magic".to_owned(), kind: FieldKind::Int8 });
        r.push(FieldDecl { name: "url".to_owned(), kind: FieldKind::Text });
        r.push(FieldDecl { name: "cache".to_owned(), kind: FieldKind::Int8 });
        r.push(FieldDecl { name: "proxy".to_owned(), kind: FieldKind::Int8 });
        r.push(FieldDecl { name: "timeout".to_owned(), kind: FieldKind::Int32 });
        proof {
            reveal_strlit("file");
            reveal_strlit("magic");
            reveal_strlit("url");
            reveal_strlit("cache");
            reveal_strlit("proxy");
            reveal_strlit("timeout");
            assert("file"@ =~= seq!['f', 'i', 'l', 'e']);
            assert("magic"@ =~= seq!['m', 'a', 'g', 'i', 'c']);
            assert("url"@ =~= seq!['u', 'r', 'l']);
            assert("cache"@ =~= seq!['c', 'a', 'c', 'h', 'e']);
            assert("proxy"@ =~= seq!['p', 'r', 'o', 'x', 'y']);
            assert("timeout"@ =~= seq!['t', 'i', 'm', 'e', 'o', 'u', 't']);
            assert(schema_view(r@) =~= Self::schema_spec());
        }
        r
    }

    fn to_vals(&self) -> (r: Vec<Option<FieldValue>>)
        ensures
            vals_view(r@) == self.fields_spec(),
    {
        let mut r: Vec<Option<FieldValue>> = Vec::new();
        r.push(match &self.file {
            Some(s) => Some(FieldValue::Text(s.clone())),
            None => None,
        });
        r.push(match &self.magic {
            Some(v) => Some(FieldValue::Int(*v as i64)),
            None => None,
        });
        r.push(match &self.url {
            Some(s) => Some(FieldValue::Text(s.clone())),
            None => None,
        });
        r.push(match &self.cache {
            Some(v) => Some(FieldValue::Int(*v as i64)),
            None => None,
        });
        r.push(match &self.proxy {
            Some(v) => Some(FieldValue::Int(*v as i64)),
            None => None,
        });
        r.push(match &self.timeout {
            Some(v) => Some(FieldValue::Int(*v as i64)),
            None => None,
        });
        proof {
            assert(vals_view(r@) =~= self.fields_spec());
        }
        r
    }

    fn from_vals(vals: &Vec<Option<FieldValue>>) -> (r: Record)
        requires
            wf_vals(Self::schema_spec(), vals_view(vals@)),
        ensures
            r.fields_spec() == vals_view(vals@),
    {
        let r = Record {
            file: match &vals[0] {
                Some(FieldValue::Text(s)) => Some(s.clone()),
                _ => None,
            },
            magic: match &vals[1] {
                Some(FieldValue::Int(n)) => Some(#[verifier::truncate] (*n as i8)),
                _ => None,
            },
            url: match &vals[2] {
                Some(FieldValue::Text(s)) => Some(s.clone()),
                _ => None,
            },
            cache: match &vals[3] {
                Some(FieldValue::Int(n)) => Some(#[verifier::truncate] (*n as i8)),
                _ => None,
            },
            proxy: match &vals[4] {
                Some(FieldValue::Int(n)) => Some(#[verifier::truncate] (*n as i8)),
                _ => None,
            },
            timeout: match &vals[5] {
                Some(FieldValue::Int(n)) => Some(#[verifier::truncate] (*n as i32)),
                _ => None,
            },
        };
        proof {
            assert(r.fields_spec() =~= vals_view(vals@));
        }
        r
    }
}

impl CQCode for Record {
    fn to_string(&self) -> (r: String)
        ensures
            r@ == encode_inline_spec(Record::tag_spec(), Record::schema_spec(), self.fields_spec()),
    {
        let d = Record::decls();
        let v = self.to_vals();
        proof {
            reveal_strlit("record");
            assert("record"@ =~= Record::tag_spec());
            assert(schema_view(d@).len() == d@.len());
            assert(vals_view(v@).len() == v@.len());
        }
        encode_inline("record", &d, &v)
    }

    fn from_string(s: String) -> (r: Result<Record, SegmentError>)
        ensures
            match r {
                Ok(x) => decode_inline_spec(Record::tag_spec(), Record::schema_spec(), s@)
                    == Ok::<_, SegErr>(x.fields_spec()),
                Err(e) => decode_inline_spec(Record::tag_spec(), Record::schema_spec(), s@)
                    == Err::<Seq<Option<FieldVal>>, _>(e@),
            },
    {
        let chars = str_chars(s.as_str());
        let d = Record::decls();
        proof {
            reveal_strlit("record");
            assert("record"@ =~= Record::tag_spec());
        }
        match decode_inline("record", &d, &chars) {
            Ok(vals) => {
                proof {
                    let schema = Record::schema_spec();
                    let pairs = pairs_from(s@, word_run_end(s@, 4));
                    let acc = none_fields(schema.len() as int);
                    assert(apply_pairs(schema, pairs, acc) == Ok::<_, SegErr>(vals_view(vals@)));
                    lemma_apply_pairs_len(schema, pairs, acc);
                    lemma_apply_pairs_fits(schema, pairs, acc);
                }
                Ok(Record::from_vals(&vals))
            }
            Err(e) => Err(e),
        }
    }

    fn to_json(&self) -> (r: Result<String, SegmentError>)
        ensures
            r matches Ok(t) && t@ == encode_json_spec(
                Record::tag_spec(),
                Record::schema_spec(),
                self.fields_spec(),
            ),
    {
        let d = Record::decls();
        let v = self.to_vals();
        proof {
            reveal_strlit("record");
            assert("record"@ =~= Record::tag_spec());
            assert(schema_view(d@).len() == d@.len());
            assert(vals_view(v@).len() == v@.len());
        }
        Ok(encode_json("record", &d, &v))
    }

    fn from_json(s: &str) -> (r: Result<Record, SegmentError>)
        ensures
            match r {
                Ok(x) => decode_json_spec(Record::tag_spec(), Record::schema_spec(), s@)
                    == Ok::<_, SegErr>(x.fields_spec()),
                Err(e) => decode_json_spec(Record::tag_spec(), Record::schema_spec(), s@)
                    == Err::<Seq<Option<FieldVal>>, _>(e@),
            },
    {
        let chars = str_chars(s);
        let d = Record::decls();
        proof {
            reveal_strlit("record");
            assert("record"@ =~= Record::tag_spec());
        }
        match decode_json("record", &d, &chars) {
            Ok(vals) => {
                proof {
                    let schema = Record::schema_spec();
                    let acc = none_fields(schema.len() as int);
                    match parse_json_text(s@) {
                        Some(JsonV::Obj(fs)) => {
                            match obj_get(fs, data_key()) {
                                Some(JsonV::Obj(dfs)) => {
                                    assert(apply_jmembers(schema, dfs, acc)
                                        == Ok::<_, SegErr>(vals_view(vals@)));
                                    lemma_apply_jmembers_len(schema, dfs, acc);
                                    lemma_apply_jmembers_fits(schema, dfs, acc);
                                }
                                _ => {}
                            }
                        }
                        _ => {}
                    }
                }
                Ok(Record::from_vals(&vals))
            }
            Err(e) => Err(e),
        }
    }
}

/// Round trip: decoding the encoded form of a representable instance
/// of this shape gives its fields back, in both notations.
#[verifier::rlimit(30)]
pub proof fn lemma_record_round_trip(x: Record)
    requires
        inline_representable(x.fields_spec()),
    ensures
        decode_inline_spec(
            Record::tag_spec(),
            Record::schema_spec(),
            encode_inline_spec(Record::tag_spec(), Record::schema_spec(), x.fields_spec()),
        ) == Ok::<_, SegErr>(x.fields_spec()),
        decode_json_spec(
            Record::tag_spec(),
            Record::schema_spec(),
            encode_json_spec(Record::tag_spec(), Record::schema_spec(), x.fields_spec()),
        ) == Ok::<_, SegErr>(x.fields_spec()),
{
    assert(crate::text::lower_chars(Record::tag_spec()) =~= Record::tag_spec());
    assert(wf_tag(Record::tag_spec()));
    assert(wf_schema(Record::schema_spec())) by {
        let sch = Record::schema_spec();
        assert(sch[0].0.len() != sch[1].0.len());
        assert(sch[0].0.len() != sch[2].0.len());
        assert(sch[0].0.len() != sch[3].0.len());
        assert(sch[0].0.len() != sch[4].0.len());
        assert(sch[0].0.len() != sch[5].0.len());
        assert(sch[1].0.len() != sch[2].0.len());
        assert(sch[1].0[0] != sch[3].0[0]);
        assert(sch[1].0[0] != sch[4].0[0]);
        assert(sch[1].0.len() != sch[5].0.len());
        assert(sch[2].0.len() != sch[3].0.len());
        assert(sch[2].0.len() != sch[4].0.len());
        assert(sch[2].0.len() != sch[5].0.len());
        assert(sch[3].0[0] != sch[4].0[0]);
        assert(sch[3].0.len() != sch[5].0.len());
        assert(sch[4].0.len() != sch[5].0.len());
    }
    assert(wf_vals(Record::schema_spec(), x.fields_spec()));
    lemma_inline_round_trip(Record::tag_spec(), Record::schema_spec(), x.fields_spec());
    crate::message::cq_code::lemma_json_round_trip(Record::tag_spec(), Record::schema_spec(), x.fields_spec());
}

/// The JSON notation needs no side condition: even empty text
/// fields round-trip there.
#[verifier::rlimit(30)]
pub proof fn lemma_record_json_round_trip(x: Record)
    ensures
        decode_json_spec(
            Record::tag_spec(),
            Record::schema_spec(),
            encode_json_spec(Record::tag_spec(), Record::schema_spec(), x.fields_spec()),
        ) == Ok::<_, SegErr>(x.fields_spec()),
{
    assert(crate::text::lower_chars(Record::tag_spec()) =~= Record::tag_spec());
    assert(wf_tag(Record::tag_spec()));
    assert(wf_schema(Record::schema_spec())) by {
        let sch = Record::schema_spec();
        assert(sch[0].0.len() != sch[1].0.len());
        assert(sch[0].0.len() != sch[2].0.len());
        assert(sch[0].0.len() != sch[3].0.len());
        assert(sch[0].0.len() != sch[4].0.len());
        assert(sch[0].0.len() != sch[5].0.len());
        assert(sch[1].0.len() != sch[2].0.len());
        assert(sch[1].0[0] != sch[3].0[0]);
        assert(sch[1].0[0] != sch[4].0[0]);
        assert(sch[1].0.len() != sch[5].0.len());
        assert(sch[2].0.len() != sch[3].0.len());
        assert(sch[2].0.len() != sch[4].0.len());
        assert(sch[2].0.len() != sch[5].0.len());
        assert(sch[3].0[0] != sch[4].0[0]);
        assert(sch[3].0.len() != sch[5].0.len());
        assert(sch[4].0.len() != sch[5].0.len());
    }
    assert(wf_vals(Record::schema_spec(), x.fields_spec()));
    crate::message::cq_code::lemma_json_round_trip(Record::tag_spec(), Record::schema_spec(), x.fields_spec());
}

/// A short video.
#[derive(Debug)]
pub struct Video {
    pub file: Option<String>,
    pub cover: Option<String>,
    pub c: Option<i32>,
}

impl Video {
    /// The shape's canonical tag.
    pub open spec fn tag_spec() -> Seq<char> {
        seq!['v', 'i', 'd', 'e', 'o']
    }

    /// The shape's schema: wire names and kinds, in declaration order.
    pub open spec fn schema_spec() -> Seq<(Seq<char>, FieldKind)> {
        seq![
            (seq!['f', 'i', 'l', 'e'], FieldKind::Text),
            (seq!['c', 'o', 'v', 'e', 'r'], FieldKind::Text),
            (seq!['c'], FieldKind::Int32),
        ]
    }

    /// The instance's field values, parallel to the schema.
    pub open spec fn fields_spec(&self) -> Seq<Option<FieldVal>> {
        seq![
            match self.file { Some(s) => Some(FieldVal::Text(s@)), None => None },
            match self.cover { Some(s) => Some(FieldVal::Text(s@)), None => None },
            match self.c { Some(v) => Some(FieldVal::Int(v as int)), None => None },
        ]
    }

    fn decls() -> (r: Vec<FieldDecl>)
        ensures
            schema_view(r@) == Self::schema_spec(),
    {
        let mut r: Vec<FieldDecl> = Vec::new();
        r.push(FieldDecl { name: "file".to_owned(), kind: FieldKind::Text });
        r.push(FieldDecl { name: "cover".to_owned(), kind: FieldKind::Text });
        r.push(FieldDecl { name: "c".to_owned(), kind: FieldKind::Int32 });
        proof {
            reveal_strlit("file");
            reveal_strlit("cover");
            reveal_strlit("c");
            assert("file"@ =~= seq!['f', 'i', 'l', 'e']);
            assert("cover"@ =~= seq!['c', 'o', 'v', 'e', 'r']);
            assert("c"@ =~= seq!['c']);
            assert(schema_view(r@) =~= Self::schema_spec());
        }
        r
    }

    fn to_vals(&self) -> (r: Vec<Option<FieldValue>>)
        ensures
            vals_view(r@) == self.fields_spec(),
    {
        let mut r: Vec<Option<FieldValue>> = Vec::new();
        r.push(match &self.file {
            Some(s) => Some(FieldValue::Text(s.clone())),
            None => None,
        });
        r.push(match &self.cover {
            Some(s) => Some(FieldValue::Text(s.clone())),
            None => None,
        });
        r.push(match &self.c {
            Some(v) => Some(FieldValue::Int(*v as i64)),
            None => None,
        });
        proof {
            assert(vals_view(r@) =~= self.fields_spec());
        }
        r
    }

    fn from_vals(vals: &Vec<Option<FieldValue>>) -> (r: Video)
        requires
            wf_vals(Self::schema_spec(), vals_view(vals@)),
        ensures
            r.fields_spec() == vals_view(vals@),
    {
        let r = Video {
            file: match &vals[0] {
                Some(FieldValue::Text(s)) => Some(s.clone()),
                _ => None,
            },
            cover: match &vals[1] {
                Some(FieldValue::Text(s)) => Some(s.clone()),
                _ => None,
            },
            c: match &vals[2] {
                Some(FieldValue::Int(n)) => Some(#[verifier::truncate] (*n as i32)),
                _ => None,
            },
        };
        proof {
            assert(r.fields_spec() =~= vals_view(vals@));
        }
        r
    }
}

impl CQCode for Video {
    fn to_string(&self) -> (r: String)
        ensures
            r@ == encode_inline_spec(Video::tag_spec(), Video::schema_spec(), self.fields_spec()),
    {
        let d = Video::decls();
        let v = self.to_vals();
        proof {
            reveal_strlit("video");
            assert("video"@ =~= Video::tag_spec());
            assert(schema_view(d@).len() == d@.len());
            assert(vals_view(v@).len() == v@.len());
        }
        encode_inline("video", &d, &v)
    }

    fn from_string(s: String) -> (r: Result<Video, SegmentError>)
        ensures
            match r {
                Ok(x) => decode_inline_spec(Video::tag_spec(), Video::schema_spec(), s@)
                    == Ok::<_, SegErr>(x.fields_spec()),
                Err(e) => decode_inline_spec(Video::tag_spec(), Video::schema_spec(), s@)
                    == Err::<Seq<Option<FieldVal>>, _>(e@),
            },
    {
        let chars = str_chars(s.as_str());
        let d = Video::decls();
        proof {
            reveal_strlit("video");
            assert("video"@ =~= Video::tag_spec());
        }
        match decode_inline("video", &d, &chars) {
            Ok(vals) => {
                proof {
                    let schema = Video::schema_spec();
                    let pairs = pairs_from(s@, word_run_end(s@, 4));
                    let acc = none_fields(schema.len() as int);
                    assert(apply_pairs(schema, pairs, acc) == Ok::<_, SegErr>(vals_view(vals@)));
                    lemma_apply_pairs_len(schema, pairs, acc);
                    lemma_apply_pairs_fits(schema, pairs, acc);
                }
                Ok(Video::from_vals(&vals))
            }
            Err(e) => Err(e),
        }
    }

    fn to_json(&self) -> (r: Result<String, SegmentError>)
        ensures
            r matches Ok(t) && t@ == encode_json_spec(
                Video::tag_spec(),
                Video::schema_spec(),
                self.fields_spec(),
            ),
    {
        let d = Video::decls();
        let v = self.to_vals();
        proof {
            reveal_strlit("video");
            assert("video"@ =~= Video::tag_spec());
            assert(schema_view(d@).len() == d@.len());
            assert(vals_view(v@).len() == v@.len());
        }
        Ok(encode_json("video", &d, &v))
    }

    fn from_json(s: &str) -> (r: Result<Video, SegmentError>)
        ensures
            match r {
                Ok(x) => decode_json_spec(Video::tag_spec(), Video::schema_spec(), s@)
                    == Ok::<_, SegErr>(x.fields_spec()),
                Err(e) => decode_json_spec(Video::tag_spec(), Video::schema_spec(), s@)
                    == Err::<Seq<Option<FieldVal>>, _>(e@),
            },
    {
        let chars = str_chars(s);
        let d = Video::decls();
        proof {
            reveal_strlit("video");
            assert("video"@ =~= Video::tag_spec());
        }
        match decode_json("video", &d, &chars) {
            Ok(vals) => {
                proof {
                    let schema = Video::schema_spec();
                    let acc = none_fields(schema.len() as int);
                    match parse_json_text(s@) {
                        Some(JsonV::Obj(fs)) => {
                            match obj_get(fs, data_key()) {
                                Some(JsonV::Obj(dfs)) => {
                                    assert(apply_jmembers(schema, dfs, acc)
                                        == Ok::<_, SegErr>(vals_view(vals@)));
                                    lemma_apply_jmembers_len(schema, dfs, acc);
                                    lemma_apply_jmembers_fits(schema, dfs, acc);
                                }
                                _ => {}
                            }
                        }
                        _ => {}
                    }
                }
                Ok(Video::from_vals(&vals))
            }
            Err(e) => Err(e),
        }
    }
}

/// Round trip: decoding the encoded form of a representable instance
/// of this shape gives its fields back, in both notations.
#[verifier::rlimit(30)]
pub proof fn lemma_video_round_trip(x: Video)
    requires
        inline_representable(x.fields_spec()),
    ensures
        decode_inline_spec(
            Video::tag_spec(),
            Video::schema_spec(),
            encode_inline_spec(Video::tag_spec(), Video::schema_spec(), x.fields_spec()),
        ) == Ok::<_, SegErr>(x.fields_spec()),
        decode_json_spec(
            Video::tag_spec(),
            Video::schema_spec(),
            encode_json_spec(Video::tag_spec(), Video::schema_spec(), x.fields_spec()),
        ) == Ok::<_, SegErr>(x.fields_spec()),
{
    assert(crate::text::lower_chars(Video::tag_spec()) =~= Video::tag_spec());
    assert(wf_tag(Video::tag_spec()));
    assert(wf_schema(Video::schema_spec())) by {
        let sch = Video::schema_spec();
        assert(sch[0].0.len() != sch[1].0.len());
        assert(sch[0].0.len() != sch[2].0.len());
        assert(sch[1].0.len() != sch[2].0.len());
    }
    assert(wf_vals(Video::schema_spec(), x.fields_spec()));
    lemma_inline_round_trip(Video::tag_spec(), Video::schema_spec(), x.fields_spec());
    crate::message::cq_code::lemma_json_round_trip(Video::tag_spec(), Video::schema_spec(), x.fields_spec());
}

/// The JSON notation needs no side condition: even empty text
/// fields round-trip there.
#[verifier::rlimit(30)]
pub proof fn lemma_video_json_round_trip(x: Video)
    ensures
        decode_json_spec(
            Video::tag_spec(),
            Video::schema_spec(),
            encode_json_spec(Video::tag_spec(), Video::schema_spec(), x.fields_spec()),
        ) == Ok::<_, SegErr>(x.fields_spec()),
{
    assert(crate::text::lower_chars(Video::tag_spec()) =~= Video::tag_spec());
    assert(wf_tag(Video::tag_spec()));
    assert(wf_schema(Video::schema_spec())) by {
        let sch = Video::schema_spec();
        assert(sch[0].0.len() != sch[1].0.len());
        assert(sch[0].0.len() != sch[2].0.len());
        assert(sch[1].0.len() != sch[2].0.len());
    }
    assert(wf_vals(Video::schema_spec(), x.fields_spec()));
    crate::message::cq_code::lemma_json_round_trip(Video::tag_spec(), Video::schema_spec(), x.fields_spec());
}

/// A mention of a group member (`all` for everyone).
#[derive(Debug)]
pub struct At {
    pub qq: Option<String>,
    pub name: Option<String>,
}

impl At {
    /// The shape's canonical tag.
    pub open spec fn tag_spec() -> Seq<char> {
        seq!['a', 't']
    }

    /// The shape's schema: wire names and kinds, in declaration order.
    pub open spec fn schema_spec() -> Seq<(Seq<char>, FieldKind)> {
        seq![
            (seq!['q', 'q'], FieldKind::Text),
            (seq!['n', 'a', 'm', 'e'], FieldKind::Text),
        ]
    }

    /// The instance's field values, parallel to the schema.
    pub open spec fn fields_spec(&self) -> Seq<Option<FieldVal>> {
        seq![
            match self.qq { Some(s) => Some(FieldVal::Text(s@)), None => None },
            match self.name { Some(s) => Some(FieldVal::Text(s@)), None => None },
        ]
    }

    fn decls() -> (r: Vec<FieldDecl>)
        ensures
            schema_view(r@) == Self::schema_spec(),
    {
        let mut r: Vec<FieldDecl> = Vec::new();
        r.push(FieldDecl { name: "qq".to_owned(), kind: FieldKind::Text });
        r.push(FieldDecl { name: "name".to_owned(), kind: FieldKind::Text });
        proof {
            reveal_strlit("qq");
            reveal_strlit("name");
            assert("qq"@ =~= seq!['q', 'q']);
            assert("name"@ =~= seq!['n', 'a', 'm', 'e']);
            assert(schema_view(r@) =~= Self::schema_spec());
        }
        r
    }

    fn to_vals(&self) -> (r: Vec<Option<FieldValue>>)
        ensures
            vals_view(r@) == self.fields_spec(),
    {
        let mut r: Vec<Option<FieldValue>> = Vec::new();
        r.push(match &self.qq {
            Some(s) => Some(FieldValue::Text(s.clone())),
            None => None,
        });
        r.push(match &self.name {
            Some(s) => Some(FieldValue::Text(s.clone())),
            None => None,
        });
        proof {
            assert(vals_view(r@) =~= self.fields_spec());
        }
        r
    }

    fn from_vals(vals: &Vec<Option<FieldValue>>) -> (r: At)
        requires
            wf_vals(Self::schema_spec(), vals_view(vals@)),
        ensures
            r.fields_spec() == vals_view(vals@),
    {
        let r = At {
            qq: match &vals[0] {
                Some(FieldValue::Text(s)) => Some(s.clone()),
                _ => None,
            },
            name: match &vals[1] {
                Some(FieldValue::Text(s)) => Some(s.clone()),
                _ => None,
            },
        };
        proof {
            assert(r.fields_spec() =~= vals_view(vals@));
        }
        r
    }
}

impl CQCode for At {
    fn to_string(&self) -> (r: String)
        ensures
            r@ == encode_inline_spec(At::tag_spec(), At::schema_spec(), self.fields_spec()),
    {
        let d = At::decls();
        let v = self.to_vals();
        proof {
            reveal_strlit("at");
            assert("at"@ =~= At::tag_spec());
            assert(schema_view(d@).len() == d@.len());
            assert(vals_view(v@).len() == v@.len());
        }
        encode_inline("at", &d, &v)
    }

    fn from_string(s: String) -> (r: Result<At, SegmentError>)
        ensures
            match r {
                Ok(x) => decode_inline_spec(At::tag_spec(), At::schema_spec(), s@)
                    == Ok::<_, SegErr>(x.fields_spec()),
                Err(e) => decode_inline_spec(At::tag_spec(), At::schema_spec(), s@)
                    == Err::<Seq<Option<FieldVal>>, _>(e@),
            },
    {
        let chars = str_chars(s.as_str());
        let d = At::decls();
        proof {
            reveal_strlit("at");
            assert("at"@ =~= At::tag_spec());
        }
        match decode_inline("at", &d, &chars) {
            Ok(vals) => {
                proof {
                    let schema = At::schema_spec();
                    let pairs = pairs_from(s@, word_run_end(s@, 4));
                    let acc = none_fields(schema.len() as int);
                    assert(apply_pairs(schema, pairs, acc) == Ok::<_, SegErr>(vals_view(vals@)));
                    lemma_apply_pairs_len(schema, pairs, acc);
                    lemma_apply_pairs_fits(schema, pairs, acc);
                }
                Ok(At::from_vals(&vals))
            }
            Err(e) => Err(e),
        }
    }

    fn to_json(&self) -> (r: Result<String, SegmentError>)
        ensures
            r matches Ok(t) && t@ == encode_json_spec(
                At::tag_spec(),
                At::schema_spec(),
                self.fields_spec(),
            ),
    {
        let d = At::decls();
        let v = self.to_vals();
        proof {
            reveal_strlit("at");
            assert("at"@ =~= At::tag_spec());
            assert(schema_view(d@).len() == d@.len());
            assert(vals_view(v@).len() == v@.len());
        }
        Ok(encode_json("at", &d, &v))
    }

    fn from_json(s: &str) -> (r: Result<At, SegmentError>)
        ensures
            match r {
                Ok(x) => decode_json_spec(At::tag_spec(), At::schema_spec(), s@)
                    == Ok::<_, SegErr>(x.fields_spec()),
                Err(e) => decode_json_spec(At::tag_spec(), At::schema_spec(), s@)
                    == Err::<Seq<Option<FieldVal>>, _>(e@),
            },
    {
        let chars = str_chars(s);
        let d = At::decls();
        proof {
            reveal_strlit("at");
            assert("at"@ =~= At::tag_spec());
        }
        match decode_json("at", &d, &chars) {
            Ok(vals) => {
                proof {
                    let schema = At::schema_spec();
                    let acc = none_fields(schema.len() as int);
                    match parse_json_text(s@) {
                        Some(JsonV::Obj(fs)) => {
                            match obj_get(fs, data_key()) {
                                Some(JsonV::Obj(dfs)) => {
                                    assert(apply_jmembers(schema, dfs, acc)
                                        == Ok::<_, SegErr>(vals_view(vals@)));
                                    lemma_apply_jmembers_len(schema, dfs, acc);
                                    lemma_apply_jmembers_fits(schema, dfs, acc);
                                }
                                _ => {}
                            }
                        }
                        _ => {}
                    }
                }
                Ok(At::from_vals(&vals))
            }
            Err(e) => Err(e),
        }
    }
}

/// Round trip: decoding the encoded form of a representable instance
/// of this shape gives its fields back, in both notations.
#[verifier::rlimit(30)]
pub proof fn lemma_at_round_trip(x: At)
    requires
        inline_representable(x.fields_spec()),
    ensures
        decode_inline_spec(
            At::tag_spec(),
            At::schema_spec(),
            encode_inline_spec(At::tag_spec(), At::schema_spec(), x.fields_spec()),
        ) == Ok::<_, SegErr>(x.fields_spec()),
        decode_json_spec(
            At::tag_spec(),
            At::schema_spec(),
            encode_json_spec(At::tag_spec(), At::schema_spec(), x.fields_spec()),
        ) == Ok::<_, SegErr>(x.fields_spec()),
{
    assert(crate::text::lower_chars(At::tag_spec()) =~= At::tag_spec());
    assert(wf_tag(At::tag_spec()));
    assert(wf_schema(At::schema_spec())) by {
        let sch = At::schema_spec();
        assert(sch[0].0.len() != sch[1].0.len());
    }
    assert(wf_vals(At::schema_spec(), x.fields_spec()));
    lemma_inline_round_trip(At::tag_spec(), At::schema_spec(), x.fields_spec());
    crate::message::cq_code::lemma_json_round_trip(At::tag_spec(), At::schema_spec(), x.fields_spec());
}

/// The JSON notation needs no side condition: even empty text
/// fields round-trip there.
#[verifier::rlimit(30)]
pub proof fn lemma_at_json_round_trip(x: At)
    ensures
        decode_json_spec(
            At::tag_spec(),
            At::schema_spec(),
            encode_json_spec(At::tag_spec(), At::schema_spec(), x.fields_spec()),
        ) == Ok::<_, SegErr>(x.fields_spec()),
{
    assert(crate::text::lower_chars(At::tag_spec()) =~= At::tag_spec());
    assert(wf_tag(At::tag_spec()));
    assert(wf_schema(At::schema_spec())) by {
        let sch = At::schema_spec();
        assert(sch[0].0.len() != sch[1].0.len());
    }
    assert(wf_vals(At::schema_spec(), x.fields_spec()));
    crate::message::cq_code::lemma_json_round_trip(At::tag_spec(), At::schema_spec(), x.fields_spec());
}

/// The rock-paper-scissors magic emoji.
#[derive(Debug)]
pub struct Rps {
}

impl Rps {
    /// The shape's canonical tag.
    pub open spec fn tag_spec() -> Seq<char> {
        seq!['r', 'p', 's']
    }

    /// The shape's schema: wire names and kinds, in declaration order.
    pub open spec fn schema_spec() -> Seq<(Seq<char>, FieldKind)> {
        Seq::empty()
    }

    /// The instance's field values, parallel to the schema.
    pub open spec fn fields_spec(&self) -> Seq<Option<FieldVal>> {
        Seq::empty()
    }

    fn decls() -> (r: Vec<FieldDecl>)
        ensures
            schema_view(r@) == Self::schema_spec(),
    {
        let mut r: Vec<FieldDecl> = Vec::new();
        proof {
            assert(schema_view(r@) =~= Self::schema_spec());
        }
        r
    }

    fn to_vals(&self) -> (r: Vec<Option<FieldValue>>)
        ensures
            vals_view(r@) == self.fields_spec(),
    {
        let mut r: Vec<Option<FieldValue>> = Vec::new();
        proof {
            assert(vals_view(r@) =~= self.fields_spec());
        }
        r
    }

    fn from_vals(vals: &Vec<Option<FieldValue>>) -> (r: Rps)
        requires
            wf_vals(Self::schema_spec(), vals_view(vals@)),
        ensures
            r.fields_spec() == vals_view(vals@),
    {
        let r = Rps {
        };
        proof {
            assert(r.fields_spec() =~= vals_view(vals@));
        }
        r
    }
}

impl CQCode for Rps {
    fn to_string(&self) -> (r: String)
        ensures
            r@ == encode_inline_spec(Rps::tag_spec(), Rps::schema_spec(), self.fields_spec()),
    {
        let d = Rps::decls();
        let v = self.to_vals();
        proof {
            reveal_strlit("rps");
            assert("rps"@ =~= Rps::tag_spec());
            assert(schema_view(d@).len() == d@.len());
            assert(vals_view(v@).len() == v@.len());
        }
        encode_inline("rps", &d, &v)
    }

    fn from_string(s: String) -> (r: Result<Rps, SegmentError>)
        ensures
            match r {
                Ok(x) => decode_inline_spec(Rps::tag_spec(), Rps::schema_spec(), s@)
                    == Ok::<_, SegErr>(x.fields_spec()),
                Err(e) => decode_inline_spec(Rps::tag_spec(), Rps::schema_spec(), s@)
                    == Err::<Seq<Option<FieldVal>>, _>(e@),
            },
    {
        let chars = str_chars(s.as_str());
        let d = Rps::decls();
        proof {
            reveal_strlit("rps");
            assert("rps"@ =~= Rps::tag_spec());
        }
        match decode_inline("rps", &d, &chars) {
            Ok(vals) => {
                proof {
                    let schema = Rps::schema_spec();
                    let pairs = pairs_from(s@, word_run_end(s@, 4));
                    let acc = none_fields(schema.len() as int);
                    assert(apply_pairs(schema, pairs, acc) == Ok::<_, SegErr>(vals_view(vals@)));
                    lemma_apply_pairs_len(schema, pairs, acc);
                    lemma_apply_pairs_fits(schema, pairs, acc);
                }
                Ok(Rps::from_vals(&vals))
            }
            Err(e) => Err(e),
        }
    }

    fn to_json(&self) -> (r: Result<String, SegmentError>)
        ensures
            r matches Ok(t) && t@ == encode_json_spec(
                Rps::tag_spec(),
                Rps::schema_spec(),
                self.fields_spec(),
            ),
    {
        let d = Rps::decls();
        let v = self.to_vals();
        proof {
            reveal_strlit("rps");
            assert("rps"@ =~= Rps::tag_spec());
            assert(schema_view(d@).len() == d@.len());
            assert(vals_view(v@).len() == v@.len());
        }
        Ok(encode_json("rps", &d, &v))
    }

    fn from_json(s: &str) -> (r: Result<Rps, SegmentError>)
        ensures
            match r {
                Ok(x) => decode_json_spec(Rps::tag_spec(), Rps::schema_spec(), s@)
                    == Ok::<_, SegErr>(x.fields_spec()),
                Err(e) => decode_json_spec(Rps::tag_spec(), Rps::schema_spec(), s@)
                    == Err::<Seq<Option<FieldVal>>, _>(e@),
            },
    {
        let chars = str_chars(s);
        let d = Rps::decls();
        proof {
            reveal_strlit("rps");
            assert("rps"@ =~= Rps::tag_spec());
        }
        match decode_json("rps", &d, &chars) {
            Ok(vals) => {
                proof {
                    let schema = Rps::schema_spec();
                    let acc = none_fields(schema.len() as int);
                    match parse_json_text(s@) {
                        Some(JsonV::Obj(fs)) => {
                            match obj_get(fs, data_key()) {
                                Some(JsonV::Obj(dfs)) => {
                                    assert(apply_jmembers(schema, dfs, acc)
                                        == Ok::<_, SegErr>(vals_view(vals@)));
                                    lemma_apply_jmembers_len(schema, dfs, acc);
                                    lemma_apply_jmembers_fits(schema, dfs, acc);
                                }
                                _ => {}
                            }
                        }
                        _ => {}
                    }
                }
                Ok(Rps::from_vals(&vals))
            }
            Err(e) => Err(e),
        }
    }
}

/// Round trip: decoding the encoded form of a representable instance
/// of this shape gives its fields back, in both notations.
#[verifier::rlimit(30)]
pub proof fn lemma_rps_round_trip(x: Rps)
    ensures
        decode_inline_spec(
            Rps::tag_spec(),
            Rps::schema_spec(),
            encode_inline_spec(Rps::tag_spec(), Rps::schema_spec(), x.fields_spec()),
        ) == Ok::<_, SegErr>(x.fields_spec()),
        decode_json_spec(
            Rps::tag_spec(),
            Rps::schema_spec(),
            encode_json_spec(Rps::tag_spec(), Rps::schema_spec(), x.fields_spec()),
        ) == Ok::<_, SegErr>(x.fields_spec()),
{
    assert(crate::text::lower_chars(Rps::tag_spec()) =~= Rps::tag_spec());
    assert(wf_tag(Rps::tag_spec()));
    assert(wf_schema(Rps::schema_spec()));
    assert(wf_vals(Rps::schema_spec(), x.fields_spec()));
    assert(inline_representable(x.fields_spec()));
    lemma_inline_round_trip(Rps::tag_spec(), Rps::schema_spec(), x.fields_spec());
    crate::message::cq_code::lemma_json_round_trip(Rps::tag_spec(), Rps::schema_spec(), x.fields_spec());
}

/// The dice magic emoji.
#[derive(Debug)]
pub struct Dice {
}

impl Dice {
    /// The shape's canonical tag.
    pub open spec fn tag_spec() -> Seq<char> {
        seq!['d', 'i', 'c', 'e']
    }

    /// The shape's schema: wire names and kinds, in declaration order.
    pub open spec fn schema_spec() -> Seq<(Seq<char>, FieldKind)> {
        Seq::empty()
    }

    /// The instance's field values, parallel to the schema.
    pub open spec fn fields_spec(&self) -> Seq<Option<FieldVal>> {
        Seq::empty()
    }

    fn decls() -> (r: Vec<FieldDecl>)
        ensures
            schema_view(r@) == Self::schema_spec(),
    {
        let mut r: Vec<FieldDecl> = Vec::new();
        proof {
            assert(schema_view(r@) =~= Self::schema_spec());
        }
        r
    }

    fn to_vals(&self) -> (r: Vec<Option<FieldValue>>)
        ensures
            vals_view(r@) == self.fields_spec(),
    {
        let mut r: Vec<Option<FieldValue>> = Vec::new();
        proof {
            assert(vals_view(r@) =~= self.fields_spec());
        }
        r
    }

    fn from_vals(vals: &Vec<Option<FieldValue>>) -> (r: Dice)
        requires
            wf_vals(Self::schema_spec(), vals_view(vals@)),
        ensures
            r.fields_spec() == vals_view(vals@),
    {
        let r = Dice {
        };
        proof {
            assert(r.fields_spec() =~= vals_view(vals@));
        }
        r
    }
}

impl CQCode for Dice {
    fn to_string(&self) -> (r: String)
        ensures
            r@ == encode_inline_spec(Dice::tag_spec(), Dice::schema_spec(), self.fields_spec()),
    {
        let d = Dice::decls();
        let v = self.to_vals();
        proof {
            reveal_strlit("dice");
            assert("dice"@ =~= Dice::tag_spec());
            assert(schema_view(d@).len() == d@.len());
            assert(vals_view(v@).len() == v@.len());
        }
        encode_inline("dice", &d, &v)
    }

    fn from_string(s: String) -> (r: Result<Dice, SegmentError>)
        ensures
            match r {
                Ok(x) => decode_inline_spec(Dice::tag_spec(), Dice::schema_spec(), s@)
                    == Ok::<_, SegErr>(x.fields_spec()),
                Err(e) => decode_inline_spec(Dice::tag_spec(), Dice::schema_spec(), s@)
                    == Err::<Seq<Option<FieldVal>>, _>(e@),
            },
    {
        let chars = str_chars(s.as_str());
        let d = Dice::decls();
        proof {
            reveal_strlit("dice");
            assert("dice"@ =~= Dice::tag_spec());
        }
        match decode_inline("dice", &d, &chars) {
            Ok(vals) => {
                proof {
                    let schema = Dice::schema_spec();
                    let pairs = pairs_from(s@, word_run_end(s@, 4));
                    let acc = none_fields(schema.len() as int);
                    assert(apply_pairs(schema, pairs, acc) == Ok::<_, SegErr>(vals_view(vals@)));
                    lemma_apply_pairs_len(schema, pairs, acc);
                    lemma_apply_pairs_fits(schema, pairs, acc);
                }
                Ok(Dice::from_vals(&vals))
            }
            Err(e) => Err(e),
        }
    }

    fn to_json(&self) -> (r: Result<String, SegmentError>)
        ensures
            r matches Ok(t) && t@ == encode_json_spec(
                Dice::tag_spec(),
                Dice::schema_spec(),
                self.fields_spec(),
            ),
    {
        let d = Dice::decls();
        let v = self.to_vals();
        proof {
            reveal_strlit("dice");
            assert("dice"@ =~= Dice::tag_spec());
            assert(schema_view(d@).len() == d@.len());
            assert(vals_view(v@).len() == v@.len());
        }
        Ok(encode_json("dice", &d, &v))
    }

    fn from_json(s: &str) -> (r: Result<Dice, SegmentError>)
        ensures
            match r {
                Ok(x) => decode_json_spec(Dice::tag_spec(), Dice::schema_spec(), s@)
                    == Ok::<_, SegErr>(x.fields_spec()),
                Err(e) => decode_json_spec(Dice::tag_spec(), Dice::schema_spec(), s@)
                    == Err::<Seq<Option<FieldVal>>, _>(e@),
            },
    {
        let chars = str_chars(s);
        let d = Dice::decls();
        proof {
            reveal_strlit("dice");
            assert("dice"@ =~= Dice::tag_spec());
        }
        match decode_json("dice", &d, &chars) {
            Ok(vals) => {
                proof {
                    let schema = Dice::schema_spec();
                    let acc = none_fields(schema.len() as int);
                    match parse_json_text(s@) {
                        Some(JsonV::Obj(fs)) => {
                            match obj_get(fs, data_key()) {
                                Some(JsonV::Obj(dfs)) => {
                                    assert(apply_jmembers(schema, dfs, acc)
                                        == Ok::<_, SegErr>(vals_view(vals@)));
                                    lemma_apply_jmembers_len(schema, dfs, acc);
                                    lemma_apply_jmembers_fits(schema, dfs, acc);
                                }
                                _ => {}
                            }
                        }
                        _ => {}
                    }
                }
                Ok(Dice::from_vals(&vals))
            }
            Err(e) => Err(e),
        }
    }
}

/// Round trip: decoding the encoded form of a representable instance
/// of this shape gives its fields back, in both notations.
#[verifier::rlimit(30)]
pub proof fn lemma_dice_round_trip(x: Dice)
    ensures
        decode_inline_spec(
            Dice::tag_spec(),
            Dice::schema_spec(),
            encode_inline_spec(Dice::tag_spec(), Dice::schema_spec(), x.fields_spec()),
        ) == Ok::<_, SegErr>(x.fields_spec()),
        decode_json_spec(
            Dice::tag_spec(),
            Dice::schema_spec(),
            encode_json_spec(Dice::tag_spec(), Dice::schema_spec(), x.fields_spec()),
        ) == Ok::<_, SegErr>(x.fields_spec()),
{
    assert(crate::text::lower_chars(Dice::tag_spec()) =~= Dice::tag_spec());
    assert(wf_tag(Dice::tag_spec()));
    assert(wf_schema(Dice::schema_spec()));
    assert(wf_vals(Dice::schema_spec(), x.fields_spec()));
    assert(inline_representable(x.fields_spec()));
    lemma_inline_round_trip(Dice::tag_spec(), Dice::schema_spec(), x.fields_spec());
    crate::message::cq_code::lemma_json_round_trip(Dice::tag_spec(), Dice::schema_spec(), x.fields_spec());
}

/// A window shake (poke).
#[derive(Debug)]
pub struct Shake {
}

impl Shake {
    /// The shape's canonical tag.
    pub open spec fn tag_spec() -> Seq<char> {
        seq!['s', 'h', 'a', 'k', 'e']
    }

    /// The shape's schema: wire names and kinds, in declaration order.
    pub open spec fn schema_spec() -> Seq<(Seq<char>, FieldKind)> {
        Seq::empty()
    }

    /// The instance's field values, parallel to the schema.
    pub open spec fn fields_spec(&self) -> Seq<Option<FieldVal>> {
        Seq::empty()
    }

    fn decls() -> (r: Vec<FieldDecl>)
        ensures
            schema_view(r@) == Self::schema_spec(),
    {
        let mut r: Vec<FieldDecl> = Vec::new();
        proof {
            assert(schema_view(r@) =~= Self::schema_spec());
        }
        r
    }

    fn to_vals(&self) -> (r: Vec<Option<FieldValue>>)
        ensures
            vals_view(r@) == self.fields_spec(),
    {
        let mut r: Vec<Option<FieldValue>> = Vec::new();
        proof {
            assert(vals_view(r@) =~= self.fields_spec());
        }
        r
    }

    fn from_vals(vals: &Vec<Option<FieldValue>>) -> (r: Shake)
        requires
            wf_vals(Self::schema_spec(), vals_view(vals@)),
        ensures
            r.fields_spec() == vals_view(vals@),
    {
        let r = Shake {
        };
        proof {
            assert(r.fields_spec() =~= vals_view(vals@));
        }
        r
    }
}

impl CQCode for Shake {
    fn to_string(&self) -> (r: String)
        ensures
            r@ == encode_inline_spec(Shake::tag_spec(), Shake::schema_spec(), self.fields_spec()),
    {
        let d = Shake::decls();
        let v = self.to_vals();
        proof {
            reveal_strlit("shake");
            assert("shake"@ =~= Shake::tag_spec());
            assert(schema_view(d@).len() == d@.len());
            assert(vals_view(v@).len() == v@.len());
        }
        encode_inline("shake", &d, &v)
    }

    fn from_string(s: String) -> (r: Result<Shake, SegmentError>)
        ensures
            match r {
                Ok(x) => decode_inline_spec(Shake::tag_spec(), Shake::schema_spec(), s@)
                    == Ok::<_, SegErr>(x.fields_spec()),
                Err(e) => decode_inline_spec(Shake::tag_spec(), Shake::schema_spec(), s@)
                    == Err::<Seq<Option<FieldVal>>, _>(e@),
            },
    {
        let chars = str_chars(s.as_str());
        let d = Shake::decls();
        proof {
            reveal_strlit("shake");
            assert("shake"@ =~= Shake::tag_spec());
        }
        match decode_inline("shake", &d, &chars) {
            Ok(vals) => {
                proof {
                    let schema = Shake::schema_spec();
                    let pairs = pairs_from(s@, word_run_end(s@, 4));
                    let acc = none_fields(schema.len() as int);
                    assert(apply_pairs(schema, pairs, acc) == Ok::<_, SegErr>(vals_view(vals@)));
                    lemma_apply_pairs_len(schema, pairs, acc);
                    lemma_apply_pairs_fits(schema, pairs, acc);
                }
                Ok(Shake::from_vals(&vals))
            }
            Err(e) => Err(e),
        }
    }

    fn to_json(&self) -> (r: Result<String, SegmentError>)
        ensures
            r matches Ok(t) && t@ == encode_json_spec(
                Shake::tag_spec(),
                Shake::schema_spec(),
                self.fields_spec(),
            ),
    {
        let d = Shake::decls();
        let v = self.to_vals();
        proof {
            reveal_strlit("shake");
            assert("shake"@ =~= Shake::tag_spec());
            assert(schema_view(d@).len() == d@.len());
            assert(vals_view(v@).len() == v@.len());
        }
        Ok(encode_json("shake", &d, &v))
    }

    fn from_json(s: &str) -> (r: Result<Shake, SegmentError>)
        ensures
            match r {
                Ok(x) => decode_json_spec(Shake::tag_spec(), Shake::schema_spec(), s@)
                    == Ok::<_, SegErr>(x.fields_spec()),
                Err(e) => decode_json_spec(Shake::tag_spec(), Shake::schema_spec(), s@)
                    == Err::<Seq<Option<FieldVal>>, _>(e@),
            },
    {
        let chars = str_chars(s);
        let d = Shake::decls();
        proof {
            reveal_strlit("shake");
            assert("shake"@ =~= Shake::tag_spec());
        }
        match decode_json("shake", &d, &chars) {
            Ok(vals) => {
                proof {
                    let schema = Shake::schema_spec();
                    let acc = none_fields(schema.len() as int);
                    match parse_json_text(s@) {
                        Some(JsonV::Obj(fs)) => {
                            match obj_get(fs, data_key()) {
                                Some(JsonV::Obj(dfs)) => {
                                    assert(apply_jmembers(schema, dfs, acc)
                                        == Ok::<_, SegErr>(vals_view(vals@)));
                                    lemma_apply_jmembers_len(schema, dfs, acc);
                                    lemma_apply_jmembers_fits(schema, dfs, acc);
                                }
                                _ => {}
                            }
                        }
                        _ => {}
                    }
                }
                Ok(Shake::from_vals(&vals))
            }
            Err(e) => Err(e),
        }
    }
}

/// Round trip: decoding the encoded form of a representable instance
/// of this shape gives its fields back, in both notations.
#[verifier::rlimit(30)]
pub proof fn lemma_shake_round_trip(x: Shake)
    ensures
        decode_inline_spec(
            Shake::tag_spec(),
            Shake::schema_spec(),
            encode_inline_spec(Shake::tag_spec(), Shake::schema_spec(), x.fields_spec()),
        ) == Ok::<_, SegErr>(x.fields_spec()),
        decode_json_spec(
            Shake::tag_spec(),
            Shake::schema_spec(),
            encode_json_spec(Shake::tag_spec(), Shake::schema_spec(), x.fields_spec()),
        ) == Ok::<_, SegErr>(x.fields_spec()),
{
    assert(crate::text::lower_chars(Shake::tag_spec()) =~= Shake::tag_spec());
    assert(wf_tag(Shake::tag_spec()));
    assert(wf_schema(Shake::schema_spec()));
    assert(wf_vals(Shake::schema_spec(), x.fields_spec()));
    assert(inline_representable(x.fields_spec()));
    lemma_inline_round_trip(Shake::tag_spec(), Shake::schema_spec(), x.fields_spec());
    crate::message::cq_code::lemma_json_round_trip(Shake::tag_spec(), Shake::schema_spec(), x.fields_spec());
}

/// Sending anonymously.
#[derive(Debug)]
pub struct Anonymous {
    pub ignore: Option<BoolInCQCode>,
}

impl Anonymous {
    /// The shape's canonical tag.
    pub open spec fn tag_spec() -> Seq<char> {
        seq!['a', 'n', 'o', 'n', 'y', 'm', 'o', 'u', 's']
    }

    /// The shape's schema: wire names and kinds, in declaration order.
    pub open spec fn schema_spec() -> Seq<(Seq<char>, FieldKind)> {
        seq![
            (seq!['i', 'g', 'n', 'o', 'r', 'e'], FieldKind::Int8),
        ]
    }

    /// The instance's field values, parallel to the schema.
    pub open spec fn fields_spec(&self) -> Seq<Option<FieldVal>> {
        seq![
            match self.ignore { Some(v) => Some(FieldVal::Int(v as int)), None => None },
        ]
    }

    fn decls() -> (r: Vec<FieldDecl>)
        ensures
            schema_view(r@) == Self::schema_spec(),
    {
        let mut r: Vec<FieldDecl> = Vec::new();
        r.push(FieldDecl { name: "ignore".to_owned(), kind: FieldKind::Int8 });
        proof {
            reveal_strlit("ignore");
            assert("ignore"@ =~= seq!['i', 'g', 'n', 'o', 'r', 'e']);
            assert(schema_view(r@) =~= Self::schema_spec());
        }
        r
    }

    fn to_vals(&self) -> (r: Vec<Option<FieldValue>>)
        ensures
            vals_view(r@) == self.fields_spec(),
    {
        let mut r: Vec<Option<FieldValue>> = Vec::new();
        r.push(match &self.ignore {
            Some(v) => Some(FieldValue::Int(*v as i64)),
            None => None,
        });
        proof {
            assert(vals_view(r@) =~= self.fields_spec());
        }
        r
    }

    fn from_vals(vals: &Vec<Option<FieldValue>>) -> (r: Anonymous)
        requires
            wf_vals(Self::schema_spec(), vals_view(vals@)),
        ensures
            r.fields_spec() == vals_view(vals@),
    {
        let r = Anonymous {
            ignore: match &vals[0] {
                Some(FieldValue::Int(n)) => Some(#[verifier::truncate] (*n as i8)),
                _ => None,
            },
        };
        proof {
            assert(r.fields_spec() =~= vals_view(vals@));
        }
        r
    }
}

impl CQCode for Anonymous {
    fn to_string(&self) -> (r: String)
        ensures
            r@ == encode_inline_spec(Anonymous::tag_spec(), Anonymous::schema_spec(), self.fields_spec()),
    {
        let d = Anonymous::decls();
        let v = self.to_vals();
        proof {
            reveal_strlit("anonymous");
            assert("anonymous"@ =~= Anonymous::tag_spec());
            assert(schema_view(d@).len() == d@.len());
            assert(vals_view(v@).len() == v@.len());
        }
        encode_inline("anonymous", &d, &v)
    }

    fn from_string(s: String) -> (r: Result<Anonymous, SegmentError>)
        ensures
            match r {
                Ok(x) => decode_inline_spec(Anonymous::tag_spec(), Anonymous::schema_spec(), s@)
                    == Ok::<_, SegErr>(x.fields_spec()),
                Err(e) => decode_inline_spec(Anonymous::tag_spec(), Anonymous::schema_spec(), s@)
                    == Err::<Seq<Option<FieldVal>>, _>(e@),
            },
    {
        let chars = str_chars(s.as_str());
        let d = Anonymous::decls();
        proof {
            reveal_strlit("anonymous");
            assert("anonymous"@ =~= Anonymous::tag_spec());
        }
        match decode_inline("anonymous", &d, &chars) {
            Ok(vals) => {
                proof {
                    let schema = Anonymous::schema_spec();
                    let pairs = pairs_from(s@, word_run_end(s@, 4));
                    let acc = none_fields(schema.len() as int);
                    assert(apply_pairs(schema, pairs, acc) == Ok::<_, SegErr>(vals_view(vals@)));
                    lemma_apply_pairs_len(schema, pairs, acc);
                    lemma_apply_pairs_fits(schema, pairs, acc);
                }
                Ok(Anonymous::from_vals(&vals))
            }
            Err(e) => Err(e),
        }
    }

    fn to_json(&self) -> (r: Result<String, SegmentError>)
        ensures
            r matches Ok(t) && t@ == encode_json_spec(
                Anonymous::tag_spec(),
                Anonymous::schema_spec(),
                self.fields_spec(),
            ),
    {
        let d = Anonymous::decls();
        let v = self.to_vals();
        proof {
            reveal_strlit("anonymous");
            assert("anonymous"@ =~= Anonymous::tag_spec());
            assert(schema_view(d@).len() == d@.len());
            assert(vals_view(v@).len() == v@.len());
        }
        Ok(encode_json("anonymous", &d, &v))
    }

    fn from_json(s: &str) -> (r: Result<Anonymous, SegmentError>)
        ensures
            match r {
                Ok(x) => decode_json_spec(Anonymous::tag_spec(), Anonymous::schema_spec(), s@)
                    == Ok::<_, SegErr>(x.fields_spec()),
                Err(e) => decode_json_spec(Anonymous::tag_spec(), Anonymous::schema_spec(), s@)
                    == Err::<Seq<Option<FieldVal>>, _>(e@),
            },
    {
        let chars = str_chars(s);
        let d = Anonymous::decls();
        proof {
            reveal_strlit("anonymous");
            assert("anonymous"@ =~= Anonymous::tag_spec());
        }
        match decode_json("anonymous", &d, &chars) {
            Ok(vals) => {
                proof {
                    let schema = Anonymous::schema_spec();
                    let acc = none_fields(schema.len() as int);
                    match parse_json_text(s@) {
                        Some(JsonV::Obj(fs)) => {
                            match obj_get(fs, data_key()) {
                                Some(JsonV::Obj(dfs)) => {
                                    assert(apply_jmembers(schema, dfs, acc)
                                        == Ok::<_, SegErr>(vals_view(vals@)));
                                    lemma_apply_jmembers_len(schema, dfs, acc);
                                    lemma_apply_jmembers_fits(schema, dfs, acc);
                                }
                                _ => {}
                            }
                        }
                        _ => {}
                    }
                }
                Ok(Anonymous::from_vals(&vals))
            }
            Err(e) => Err(e),
        }
    }
}

/// Round trip: decoding the encoded form of a representable instance
/// of this shape gives its fields back, in both notations.
#[verifier::rlimit(30)]
pub proof fn lemma_anonymous_round_trip(x: Anonymous)
    ensures
        decode_inline_spec(
            Anonymous::tag_spec(),
            Anonymous::schema_spec(),
            encode_inline_spec(Anonymous::tag_spec(), Anonymous::schema_spec(), x.fields_spec()),
        ) == Ok::<_, SegErr>(x.fields_spec()),
        decode_json_spec(
            Anonymous::tag_spec(),
            Anonymous::schema_spec(),
            encode_json_spec(Anonymous::tag_spec(), Anonymous::schema_spec(), x.fields_spec()),
        ) == Ok::<_, SegErr>(x.fields_spec()),
{
    assert(crate::text::lower_chars(Anonymous::tag_spec()) =~= Anonymous::tag_spec());
    assert(wf_tag(Anonymous::tag_spec()));
    assert(wf_schema(Anonymous::schema_spec()));
    assert(wf_vals(Anonymous::schema_spec(), x.fields_spec()));
    assert(inline_representable(x.fields_spec()));
    lemma_inline_round_trip(Anonymous::tag_spec(), Anonymous::schema_spec(), x.fields_spec());
    crate::message::cq_code::lemma_json_round_trip(Anonymous::tag_spec(), Anonymous::schema_spec(), x.fields_spec());
}

/// A link share.
#[derive(Debug)]
pub struct Share {
    pub url: Option<String>,
    pub title: Option<String>,
    pub content: Option<String>,
    pub image: Option<String>,
}

impl Share {
    /// The shape's canonical tag.
    pub open spec fn tag_spec() -> Seq<char> {
        seq!['s', 'h', 'a', 'r', 'e']
    }

    /// The shape's schema: wire names and kinds, in declaration order.
    pub open spec fn schema_spec() -> Seq<(Seq<char>, FieldKind)> {
        seq![
            (seq!['u', 'r', 'l'], FieldKind::Text),
            (seq!['t', 'i', 't', 'l', 'e'], FieldKind::Text),
            (seq!['c', 'o', 'n', 't', 'e', 'n', 't'], FieldKind::Text),
            (seq!['i', 'm', 'a', 'g', 'e'], FieldKind::Text),
        ]
    }

    /// The instance's field values, parallel to the schema.
    pub open spec fn fields_spec(&self) -> Seq<Option<FieldVal>> {
        seq![
            match self.url { Some(s) => Some(FieldVal::Text(s@)), None => None },
            match self.title { Some(s) => Some(FieldVal::Text(s@)), None => None },
            match self.content { Some(s) => Some(FieldVal::Text(s@)), None => None },
            match self.image { Some(s) => Some(FieldVal::Text(s@)), None => None },
        ]
    }

    fn decls() -> (r: Vec<FieldDecl>)
        ensures
            schema_view(r@) == Self::schema_spec(),
    {
        let mut r: Vec<FieldDecl> = Vec::new();
        r.push(FieldDecl { name: "url".to_owned(), kind: FieldKind::Text });
        r.push(FieldDecl { name: "title".to_owned(), kind: FieldKind::Text });
        r.push(FieldDecl { name: "content".to_owned(), kind: FieldKind::Text });
        r.push(FieldDecl { name: "image".to_owned(), kind: FieldKind::Text });
        proof {
            reveal_strlit("url");
            reveal_strlit("title");
            reveal_strlit("content");
            reveal_strlit("image");
            assert("url"@ =~= seq!['u', 'r', 'l']);
            assert("title"@ =~= seq!['t', 'i', 't', 'l', 'e']);
            assert("content"@ =~= seq!['c', 'o', 'n', 't', 'e', 'n', 't']);
            assert("image"@ =~= seq!['i', 'm', 'a', 'g', 'e']);
            assert(schema_view(r@) =~= Self::schema_spec());
        }
        r
    }

    fn to_vals(&self) -> (r: Vec<Option<FieldValue>>)
        ensures
            vals_view(r@) == self.fields_spec(),
    {
        let mut r: Vec<Option<FieldValue>> = Vec::new();
        r.push(match &self.url {
            Some(s) => Some(FieldValue::Text(s.clone())),
            None => None,
        });
        r.push(match &self.title {
            Some(s) => Some(FieldValue::Text(s.clone())),
            None => None,
        });
        r.push(match &self.content {
            Some(s) => Some(FieldValue::Text(s.clone())),
            None => None,
        });
        r.push(match &self.image {
            Some(s) => Some(FieldValue::Text(s.clone())),
            None => None,
        });
        proof {
            assert(vals_view(r@) =~= self.fields_spec());
        }
        r
    }

    fn from_vals(vals: &Vec<Option<FieldValue>>) -> (r: Share)
        requires
            wf_vals(Self::schema_spec(), vals_view(vals@)),
        ensures
            r.fields_spec() == vals_view(vals@),
    {
        let r = Share {
            url: match &vals[0] {
                Some(FieldValue::Text(s)) => Some(s.clone()),
                _ => None,
            },
            title: match &vals[1] {
                Some(FieldValue::Text(s)) => Some(s.clone()),
                _ => None,
            },
            content: match &vals[2] {
                Some(FieldValue::Text(s)) => Some(s.clone()),
                _ => None,
            },
            image: match &vals[3] {
                Some(FieldValue::Text(s)) => Some(s.clone()),
                _ => None,
            },
        };
        proof {
            assert(r.fields_spec() =~= vals_view(vals@));
        }
        r
    }
}

impl CQCode for Share {
    fn to_string(&self) -> (r: String)
        ensures
            r@ == encode_inline_spec(Share::tag_spec(), Share::schema_spec(), self.fields_spec()),
    {
        let d = Share::decls();
        let v = self.to_vals();
        proof {
            reveal_strlit("share");
            assert("share"@ =~= Share::tag_spec());
            assert(schema_view(d@).len() == d@.len());
            assert(vals_view(v@).len() == v@.len());
        }
        encode_inline("share", &d, &v)
    }

    fn from_string(s: String) -> (r: Result<Share, SegmentError>)
        ensures
            match r {
                Ok(x) => decode_inline_spec(Share::tag_spec(), Share::schema_spec(), s@)
                    == Ok::<_, SegErr>(x.fields_spec()),
                Err(e) => decode_inline_spec(Share::tag_spec(), Share::schema_spec(), s@)
                    == Err::<Seq<Option<FieldVal>>, _>(e@),
            },
    {
        let chars = str_chars(s.as_str());
        let d = Share::decls();
        proof {
            reveal_strlit("share");
            assert("share"@ =~= Share::tag_spec());
        }
        match decode_inline("share", &d, &chars) {
            Ok(vals) => {
                proof {
                    let schema = Share::schema_spec();
                    let pairs = pairs_from(s@, word_run_end(s@, 4));
                    let acc = none_fields(schema.len() as int);
                    assert(apply_pairs(schema, pairs, acc) == Ok::<_, SegErr>(vals_view(vals@)));
                    lemma_apply_pairs_len(schema, pairs, acc);
                    lemma_apply_pairs_fits(schema, pairs, acc);
                }
                Ok(Share::from_vals(&vals))
            }
            Err(e) => Err(e),
        }
    }

    fn to_json(&self) -> (r: Result<String, SegmentError>)
        ensures
            r matches Ok(t) && t@ == encode_json_spec(
                Share::tag_spec(),
                Share::schema_spec(),
                self.fields_spec(),
            ),
    {
        let d = Share::decls();
        let v = self.to_vals();
        proof {
            reveal_strlit("share");
            assert("share"@ =~= Share::tag_spec());
            assert(schema_view(d@).len() == d@.len());
            assert(vals_view(v@).len() == v@.len());
        }
        Ok(encode_json("share", &d, &v))
    }

    fn from_json(s: &str) -> (r: Result<Share, SegmentError>)
        ensures
            match r {
                Ok(x) => decode_json_spec(Share::tag_spec(), Share::schema_spec(), s@)
                    == Ok::<_, SegErr>(x.fields_spec()),
                Err(e) => decode_json_spec(Share::tag_spec(), Share::schema_spec(), s@)
                    == Err::<Seq<Option<FieldVal>>, _>(e@),
            },
    {
        let chars = str_chars(s);
        let d = Share::decls();
        proof {
            reveal_strlit("share");
            assert("share"@ =~= Share::tag_spec());
        }
        match decode_json("share", &d, &chars) {
            Ok(vals) => {
                proof {
                    let schema = Share::schema_spec();
                    let acc = none_fields(schema.len() as int);
                    match parse_json_text(s@) {
                        Some(JsonV::Obj(fs)) => {
                            match obj_get(fs, data_key()) {
                                Some(JsonV::Obj(dfs)) => {
                                    assert(apply_jmembers(schema, dfs, acc)
                                        == Ok::<_, SegErr>(vals_view(vals@)));
                                    lemma_apply_jmembers_len(schema, dfs, acc);
                                    lemma_apply_jmembers_fits(schema, dfs, acc);
                                }
                                _ => {}
                            }
                        }
                        _ => {}
                    }
                }
                Ok(Share::from_vals(&vals))
            }
            Err(e) => Err(e),
        }
    }
}

/// Round trip: decoding the encoded form of a representable instance
/// of this shape gives its fields back, in both notations.
#[verifier::rlimit(30)]
pub proof fn lemma_share_round_trip(x: Share)
    requires
        inline_representable(x.fields_spec()),
    ensures
        decode_inline_spec(
            Share::tag_spec(),
            Share::schema_spec(),
            encode_inline_spec(Share::tag_spec(), Share::schema_spec(), x.fields_spec()),
        ) == Ok::<_, SegErr>(x.fields_spec()),
        decode_json_spec(
            Share::tag_spec(),
            Share::schema_spec(),
            encode_json_spec(Share::tag_spec(), Share::schema_spec(), x.fields_spec()),
        ) == Ok::<_, SegErr>(x.fields_spec()),
{
    assert(crate::text::lower_chars(Share::tag_spec()) =~= Share::tag_spec());
    assert(wf_tag(Share::tag_spec()));
    assert(wf_schema(Share::schema_spec())) by {
        let sch = Share::schema_spec();
        assert(sch[0].0.len() != sch[1].0.len());
        assert(sch[0].0.len() != sch[2].0.len());
        assert(sch[0].0.len() != sch[3].0.len());
        assert(sch[1].0.len() != sch[2].0.len());
        assert(sch[1].0[0] != sch[3].0[0]);
        assert(sch[2].0.len() != sch[3].0.len());
    }
    assert(wf_vals(Share::schema_spec(), x.fields_spec()));
    lemma_inline_round_trip(Share::tag_spec(), Share::schema_spec(), x.fields_spec());
    crate::message::cq_code::lemma_json_round_trip(Share::tag_spec(), Share::schema_spec(), x.fields_spec());
}

/// The JSON notation needs no side condition: even empty text
/// fields round-trip there.
#[verifier::rlimit(30)]
pub proof fn lemma_share_json_round_trip(x: Share)
    ensures
        decode_json_spec(
            Share::tag_spec(),
            Share::schema_spec(),
            encode_json_spec(Share::tag_spec(), Share::schema_spec(), x.fields_spec()),
        ) == Ok::<_, SegErr>(x.fields_spec()),
{
    assert(crate::text::lower_chars(Share::tag_spec()) =~= Share::tag_spec());
    assert(wf_tag(Share::tag_spec()));
    assert(wf_schema(Share::schema_spec())) by {
        let sch = Share::schema_spec();
        assert(sch[0].0.len() != sch[1].0.len());
        assert(sch[0].0.len() != sch[2].0.len());
        assert(sch[0].0.len() != sch[3].0.len());
        assert(sch[1].0.len() != sch[2].0.len());
        assert(sch[1].0[0] != sch[3].0[0]);
        assert(sch[2].0.len() != sch[3].0.len());
    }
    assert(wf_vals(Share::schema_spec(), x.fields_spec()));
    crate::message::cq_code::lemma_json_round_trip(Share::tag_spec(), Share::schema_spec(), x.fields_spec());
}

/// A friend or group recommendation.
#[derive(Debug)]
pub struct Contact {
    pub type_: Option<String>,
    pub id: Option<String>,
}

impl Contact {
    /// The shape's canonical tag.
    pub open spec fn tag_spec() -> Seq<char> {
        seq!['c', 'o', 'n', 't', 'a', 'c', 't']
    }

    /// The shape's schema: wire names and kinds, in declaration order.
    pub open spec fn schema_spec() -> Seq<(Seq<char>, FieldKind)> {
        seq![
            (seq!['t', 'y', 'p', 'e'], FieldKind::Text),
            (seq!['i', 'd'], FieldKind::Text),
        ]
    }

    /// The instance's field values, parallel to the schema.
    pub open spec fn fields_spec(&self) -> Seq<Option<FieldVal>> {
        seq![
            match self.type_ { Some(s) => Some(FieldVal::Text(s@)), None => None },
            match self.id { Some(s) => Some(FieldVal::Text(s@)), None => None },
        ]
    }

    fn decls() -> (r: Vec<FieldDecl>)
        ensures
            schema_view(r@) == Self::schema_spec(),
    {
        let mut r: Vec<FieldDecl> = Vec::new();
        r.push(FieldDecl { name: "type".to_owned(), kind: FieldKind::Text });
        r.push(FieldDecl { name: "id".to_owned(), kind: FieldKind::Text });
        proof {
            reveal_strlit("type");
            reveal_strlit("id");
            assert("type"@ =~= seq!['t', 'y', 'p', 'e']);
            assert("id"@ =~= seq!['i', 'd']);
            assert(schema_view(r@) =~= Self::schema_spec());
        }
        r
    }

    fn to_vals(&self) -> (r: Vec<Option<FieldValue>>)
        ensures
            vals_view(r@) == self.fields_spec(),
    {
        let mut r: Vec<Option<FieldValue>> = Vec::new();
        r.push(match &self.type_ {
            Some(s) => Some(FieldValue::Text(s.clone())),
            None => None,
        });
        r.push(match &self.id {
            Some(s) => Some(FieldValue::Text(s.clone())),
            None => None,
        });
        proof {
            assert(vals_view(r@) =~= self.fields_spec());
        }
        r
    }

    fn from_vals(vals: &Vec<Option<FieldValue>>) -> (r: Contact)
        requires
            wf_vals(Self::schema_spec(), vals_view(vals@)),
        ensures
            r.fields_spec() == vals_view(vals@),
    {
        let r = Contact {
            type_: match &vals[0] {
                Some(FieldValue::Text(s)) => Some(s.clone()),
                _ => None,
            },
            id: match &vals[1] {
                Some(FieldValue::Text(s)) => Some(s.clone()),
                _ => None,
            },
        };
        proof {
            assert(r.fields_spec() =~= vals_view(vals@));
        }
        r
    }
}

impl CQCode for Contact {
    fn to_string(&self) -> (r: String)
        ensures
            r@ == encode_inline_spec(Contact::tag_spec(), Contact::schema_spec(), self.fields_spec()),
    {
        let d = Contact::decls();
        let v = self.to_vals();
        proof {
            reveal_strlit("contact");
            assert("contact"@ =~= Contact::tag_spec());
            assert(schema_view(d@).len() == d@.len());
            assert(vals_view(v@).len() == v@.len());
        }
        encode_inline("contact", &d, &v)
    }

    fn from_string(s: String) -> (r: Result<Contact, SegmentError>)
        ensures
            match r {
                Ok(x) => decode_inline_spec(Contact::tag_spec(), Contact::schema_spec(), s@)
                    == Ok::<_, SegErr>(x.fields_spec()),
                Err(e) => decode_inline_spec(Contact::tag_spec(), Contact::schema_spec(), s@)
                    == Err::<Seq<Option<FieldVal>>, _>(e@),
            },
    {
        let chars = str_chars(s.as_str());
        let d = Contact::decls();
        proof {
            reveal_strlit("contact");
            assert("contact"@ =~= Contact::tag_spec());
        }
        match decode_inline("contact", &d, &chars) {
            Ok(vals) => {
                proof {
                    let schema = Contact::schema_spec();
                    let pairs = pairs_from(s@, word_run_end(s@, 4));
                    let acc = none_fields(schema.len() as int);
                    assert(apply_pairs(schema, pairs, acc) == Ok::<_, SegErr>(vals_view(vals@)));
                    lemma_apply_pairs_len(schema, pairs, acc);
                    lemma_apply_pairs_fits(schema, pairs, acc);
                }
                Ok(Contact::from_vals(&vals))
            }
            Err(e) => Err(e),
        }
    }

    fn to_json(&self) -> (r: Result<String, SegmentError>)
        ensures
            r matches Ok(t) && t@ == encode_json_spec(
                Contact::tag_spec(),
                Contact::schema_spec(),
                self.fields_spec(),
            ),
    {
        let d = Contact::decls();
        let v = self.to_vals();
        proof {
            reveal_strlit("contact");
            assert("contact"@ =~= Contact::tag_spec());
            assert(schema_view(d@).len() == d@.len());
            assert(vals_view(v@).len() == v@.len());
        }
        Ok(encode_json("contact", &d, &v))
    }

    fn from_json(s: &str) -> (r: Result<Contact, SegmentError>)
        ensures
            match r {
                Ok(x) => decode_json_spec(Contact::tag_spec(), Contact::schema_spec(), s@)
                    == Ok::<_, SegErr>(x.fields_spec()),
                Err(e) => decode_json_spec(Contact::tag_spec(), Contact::schema_spec(), s@)
                    == Err::<Seq<Option<FieldVal>>, _>(e@),
            },
    {
        let chars = str_chars(s);
        let d = Contact::decls();
        proof {
            reveal_strlit("contact");
            assert("contact"@ =~= Contact::tag_spec());
        }
        match decode_json("contact", &d, &chars) {
            Ok(vals) => {
                proof {
                    let schema = Contact::schema_spec();
                    let acc = none_fields(schema.len() as int);
                    match parse_json_text(s@) {
                        Some(JsonV::Obj(fs)) => {
                            match obj_get(fs, data_key()) {
                                Some(JsonV::Obj(dfs)) => {
                                    assert(apply_jmembers(schema, dfs, acc)
                                        == Ok::<_, SegErr>(vals_view(vals@)));
                                    lemma_apply_jmembers_len(schema, dfs, acc);
                                    lemma_apply_jmembers_fits(schema, dfs, acc);
                                }
                                _ => {}
                            }
                        }
                        _ => {}
                    }
                }
                Ok(Contact::from_vals(&vals))
            }
            Err(e) => Err(e),
        }
    }
}

/// Round trip: decoding the encoded form of a representable instance
/// of this shape gives its fields back, in both notations.
#[verifier::rlimit(30)]
pub proof fn lemma_contact_round_trip(x: Contact)
    requires
        inline_representable(x.fields_spec()),
    ensures
        decode_inline_spec(
            Contact::tag_spec(),
            Contact::schema_spec(),
            encode_inline_spec(Contact::tag_spec(), Contact::schema_spec(), x.fields_spec()),
        ) == Ok::<_, SegErr>(x.fields_spec()),
        decode_json_spec(
            Contact::tag_spec(),
            Contact::schema_spec(),
            encode_json_spec(Contact::tag_spec(), Contact::schema_spec(), x.fields_spec()),
        ) == Ok::<_, SegErr>(x.fields_spec()),
{
    assert(crate::text::lower_chars(Contact::tag_spec()) =~= Contact::tag_spec());
    assert(wf_tag(Contact::tag_spec()));
    assert(wf_schema(Contact::schema_spec())) by {
        let sch = Contact::schema_spec();
        assert(sch[0].0.len() != sch[1].0.len());
    }
    assert(wf_vals(Contact::schema_spec(), x.fields_spec()));
    lemma_inline_round_trip(Contact::tag_spec(), Contact::schema_spec(), x.fields_spec());
    crate::message::cq_code::lemma_json_round_trip(Contact::tag_spec(), Contact::schema_spec(), x.fields_spec());
}

/// The JSON notation needs no side condition: even empty text
/// fields round-trip there.
#[verifier::rlimit(30)]
pub proof fn lemma_contact_json_round_trip(x: Contact)
    ensures
        decode_json_spec(
            Contact::tag_spec(),
            Contact::schema_spec(),
            encode_json_spec(Contact::tag_spec(), Contact::schema_spec(), x.fields_spec()),
        ) == Ok::<_, SegErr>(x.fields_spec()),
{
    assert(crate::text::lower_chars(Contact::tag_spec()) =~= Contact::tag_spec());
    assert(wf_tag(Contact::tag_spec()));
    assert(wf_schema(Contact::schema_spec())) by {
        let sch = Contact::schema_spec();
        assert(sch[0].0.len() != sch[1].0.len());
    }
    assert(wf_vals(Contact::schema_spec(), x.fields_spec()));
    crate::message::cq_code::lemma_json_round_trip(Contact::tag_spec(), Contact::schema_spec(), x.fields_spec());
}

/// A music share, either from a platform or custom.
#[derive(Debug)]
pub struct Music {
    pub type_: Option<String>,
    pub id: Option<String>,
    pub url: Option<String>,
    pub audio: Option<String>,
    pub title: Option<String>,
    pub content: Option<String>,
    pub image: Option<String>,
}

impl Music {
    /// The shape's canonical tag.
    pub open spec fn tag_spec() -> Seq<char> {
        seq!['m', 'u', 's', 'i', 'c']
    }

    /// The shape's schema: wire names and kinds, in declaration order.
    pub open spec fn schema_spec() -> Seq<(Seq<char>, FieldKind)> {
        seq![
            (seq!['t', 'y', 'p', 'e'], FieldKind::Text),
            (seq!['i', 'd'], FieldKind::Text),
            (seq!['u', 'r', 'l'], FieldKind::Text),
            (seq!['a', 'u', 'd', 'i', 'o'], FieldKind::Text),
            (seq!['t', 'i', 't', 'l', 'e'], FieldKind::Text),
            (seq!['c', 'o', 'n', 't', 'e', 'n', 't'], FieldKind::Text),
            (seq!['i', 'm', 'a', 'g', 'e'], FieldKind::Text),
        ]
    }

    /// The instance's field values, parallel to the schema.
    pub open spec fn fields_spec(&self) -> Seq<Option<FieldVal>> {
        seq![
            match self.type_ { Some(s) => Some(FieldVal::Text(s@)), None => None },
            match self.id { Some(s) => Some(FieldVal::Text(s@)), None => None },
            match self.url { Some(s) => Some(FieldVal::Text(s@)), None => None },
            match self.audio { Some(s) => Some(FieldVal::Text(s@)), None => None },
            match self.title { Some(s) => Some(FieldVal::Text(s@)), None => None },
            match self.content { Some(s) => Some(FieldVal::Text(s@)), None => None },
            match self.image { Some(s) => Some(FieldVal::Text(s@)), None => None },
        ]
    }

    fn decls() -> (r: Vec<FieldDecl>)
        ensures
            schema_view(r@) == Self::schema_spec(),
    {
        let mut r: Vec<FieldDecl> = Vec::new();
        r.push(FieldDecl { name: "type".to_owned(), kind: FieldKind::Text });
        r.push(FieldDecl { name: "id".to_owned(), kind: FieldKind::Text });
        r.push(FieldDecl { name: "url".to_owned(), kind: FieldKind::Text });
        r.push(FieldDecl { name: "audio".to_owned(), kind: FieldKind::Text });
        r.push(FieldDecl { name: "title".to_owned(), kind: FieldKind::Text });
        r.push(FieldDecl { name: "content".to_owned(), kind: FieldKind::Text });
        r.push(FieldDecl { name: "image".to_owned(), kind: FieldKind::Text });
        proof {
            reveal_strlit("type");
            reveal_strlit("id");
            reveal_strlit("url");
            reveal_strlit("audio");
            reveal_strlit("title");
            reveal_strlit("content");
            reveal_strlit("image");
            assert("type"@ =~= seq!['t', 'y', 'p', 'e']);
            assert("id"@ =~= seq!['i', 'd']);
            assert("url"@ =~= seq!['u', 'r', 'l']);
            assert("audio"@ =~= seq!['a', 'u', 'd', 'i', 'o']);
            assert("title"@ =~= seq!['t', 'i', 't', 'l', 'e']);
            assert("content"@ =~= seq!['c', 'o', 'n', 't', 'e', 'n', 't']);
            assert("image"@ =~= seq!['i', 'm', 'a', 'g', 'e']);
            assert(schema_view(r@) =~= Self::schema_spec());
        }
        r
    }

    fn to_vals(&self) -> (r: Vec<Option<FieldValue>>)
        ensures
            vals_view(r@) == self.fields_spec(),
    {
        let mut r: Vec<Option<FieldValue>> = Vec::new();
        r.push(match &self.type_ {
            Some(s) => Some(FieldValue::Text(s.clone())),
            None => None,
        });
        r.push(match &self.id {
            Some(s) => Some(FieldValue::Text(s.clone())),
            None => None,
        });
        r.push(match &self.url {
            Some(s) => Some(FieldValue::Text(s.clone())),
            None => None,
        });
        r.push(match &self.audio {
            Some(s) => Some(FieldValue::Text(s.clone())),
            None => None,
        });
        r.push(match &self.title {
            Some(s) => Some(FieldValue::Text(s.clone())),
            None => None,
        });
        r.push(match &self.content {
            Some(s) => Some(FieldValue::Text(s.clone())),
            None => None,
        });
        r.push(match &self.image {
            Some(s) => Some(FieldValue::Text(s.clone())),
            None => None,
        });
        proof {
            assert(vals_view(r@) =~= self.fields_spec());
        }
        r
    }

    fn from_vals(vals: &Vec<Option<FieldValue>>) -> (r: Music)
        requires
            wf_vals(Self::schema_spec(), vals_view(vals@)),
        ensures
            r.fields_spec() == vals_view(vals@),
    {
        let r = Music {
            type_: match &vals[0] {
                Some(FieldValue::Text(s)) => Some(s.clone()),
                _ => None,
            },
            id: match &vals[1] {
                Some(FieldValue::Text(s)) => Some(s.clone()),
                _ => None,
            },
            url: match &vals[2] {
                Some(FieldValue::Text(s)) => Some(s.clone()),
                _ => None,
            },
            audio: match &vals[3] {
                Some(FieldValue::Text(s)) => Some(s.clone()),
                _ => None,
            },
            title: match &vals[4] {
                Some(FieldValue::Text(s)) => Some(s.clone()),
                _ => None,
            },
            content: match &vals[5] {
                Some(FieldValue::Text(s)) => Some(s.clone()),
                _ => None,
            },
            image: match &vals[6] {
                Some(FieldValue::Text(s)) => Some(s.clone()),
                _ => None,
            },
        };
        proof {
            assert(r.fields_spec() =~= vals_view(vals@));
        }
        r
    }
}

impl CQCode for Music {
    fn to_string(&self) -> (r: String)
        ensures
            r@ == encode_inline_spec(Music::tag_spec(), Music::schema_spec(), self.fields_spec()),
    {
        let d = Music::decls();
        let v = self.to_vals();
        proof {
            reveal_strlit("music");
            assert("music"@ =~= Music::tag_spec());
            assert(schema_view(d@).len() == d@.len());
            assert(vals_view(v@).len() == v@.len());
        }
        encode_inline("music", &d, &v)
    }

    fn from_string(s: String) -> (r: Result<Music, SegmentError>)
        ensures
            match r {
                Ok(x) => decode_inline_spec(Music::tag_spec(), Music::schema_spec(), s@)
                    == Ok::<_, SegErr>(x.fields_spec()),
                Err(e) => decode_inline_spec(Music::tag_spec(), Music::schema_spec(), s@)
                    == Err::<Seq<Option<FieldVal>>, _>(e@),
            },
    {
        let chars = str_chars(s.as_str());
        let d = Music::decls();
        proof {
            reveal_strlit("music");
            assert("music"@ =~= Music::tag_spec());
        }
        match decode_inline("music", &d, &chars) {
            Ok(vals) => {
                proof {
                    let schema = Music::schema_spec();
                    let pairs = pairs_from(s@, word_run_end(s@, 4));
                    let acc = none_fields(schema.len() as int);
                    assert(apply_pairs(schema, pairs, acc) == Ok::<_, SegErr>(vals_view(vals@)));
                    lemma_apply_pairs_len(schema, pairs, acc);
                    lemma_apply_pairs_fits(schema, pairs, acc);
                }
                Ok(Music::from_vals(&vals))
            }
            Err(e) => Err(e),
        }
    }

    fn to_json(&self) -> (r: Result<String, SegmentError>)
        ensures
            r matches Ok(t) && t@ == encode_json_spec(
                Music::tag_spec(),
                Music::schema_spec(),
                self.fields_spec(),
            ),
    {
        let d = Music::decls();
        let v = self.to_vals();
        proof {
            reveal_strlit("music");
            assert("music"@ =~= Music::tag_spec());
            assert(schema_view(d@).len() == d@.len());
            assert(vals_view(v@).len() == v@.len());
        }
        Ok(encode_json("music", &d, &v))
    }

    fn from_json(s: &str) -> (r: Result<Music, SegmentError>)
        ensures
            match r {
                Ok(x) => decode_json_spec(Music::tag_spec(), Music::schema_spec(), s@)
                    == Ok::<_, SegErr>(x.fields_spec()),
                Err(e) => decode_json_spec(Music::tag_spec(), Music::schema_spec(), s@)
                    == Err::<Seq<Option<FieldVal>>, _>(e@),
            },
    {
        let chars = str_chars(s);
        let d = Music::decls();
        proof {
            reveal_strlit("music");
            assert("music"@ =~= Music::tag_spec());
        }
        match decode_json("music", &d, &chars) {
            Ok(vals) => {
                proof {
                    let schema = Music::schema_spec();
                    let acc = none_fields(schema.len() as int);
                    match parse_json_text(s@) {
                        Some(JsonV::Obj(fs)) => {
                            match obj_get(fs, data_key()) {
                                Some(JsonV::Obj(dfs)) => {
                                    assert(apply_jmembers(schema, dfs, acc)
                                        == Ok::<_, SegErr>(vals_view(vals@)));
                                    lemma_apply_jmembers_len(schema, dfs, acc);
                                    lemma_apply_jmembers_fits(schema, dfs, acc);
                                }
                                _ => {}
                            }
                        }
                        _ => {}
                    }
                }
                Ok(Music::from_vals(&vals))
            }
            Err(e) => Err(e),
        }
    }
}

/// Round trip: decoding the encoded form of a representable instance
/// of this shape gives its fields back, in both notations.
#[verifier::rlimit(30)]
pub proof fn lemma_music_round_trip(x: Music)
    requires
        inline_representable(x.fields_spec()),
    ensures
        decode_inline_spec(
            Music::tag_spec(),
            Music::schema_spec(),
            encode_inline_spec(Music::tag_spec(), Music::schema_spec(), x.fields_spec()),
        ) == Ok::<_, SegErr>(x.fields_spec()),
        decode_json_spec(
            Music::tag_spec(),
            Music::schema_spec(),
            encode_json_spec(Music::tag_spec(), Music::schema_spec(), x.fields_spec()),
        ) == Ok::<_, SegErr>(x.fields_spec()),
{
    assert(crate::text::lower_chars(Music::tag_spec()) =~= Music::tag_spec());
    assert(wf_tag(Music::tag_spec()));
    assert(wf_schema(Music::schema_spec())) by {
        let sch = Music::schema_spec();
        assert(sch[0].0.len() != sch[1].0.len());
        assert(sch[0].0.len() != sch[2].0.len());
        assert(sch[0].0.len() != sch[3].0.len());
        assert(sch[0].0.len() != sch[4].0.len());
        assert(sch[0].0.len() != sch[5].0.len());
        assert(sch[0].0.len() != sch[6].0.len());
        assert(sch[1].0.len() != sch[2].0.len());
        assert(sch[1].0.len() != sch[3].0.len());
        assert(sch[1].0.len() != sch[4].0.len());
        assert(sch[1].0.len() != sch[5].0.len());
        assert(sch[1].0.len() != sch[6].0.len());
        assert(sch[2].0.len() != sch[3].0.len());
        assert(sch[2].0.len() != sch[4].0.len());
        assert(sch[2].0.len() != sch[5].0.len());
        assert(sch[2].0.len() != sch[6].0.len());
        assert(sch[3].0[0] != sch[4].0[0]);
        assert(sch[3].0.len() != sch[5].0.len());
        assert(sch[3].0[0] != sch[6].0[0]);
        assert(sch[4].0.len() != sch[5].0.len());
        assert(sch[4].0[0] != sch[6].0[0]);
        assert(sch[5].0.len() != sch[6].0.len());
    }
    assert(wf_vals(Music::schema_spec(), x.fields_spec()));
    lemma_inline_round_trip(Music::tag_spec(), Music::schema_spec(), x.fields_spec());
    crate::message::cq_code::lemma_json_round_trip(Music::tag_spec(), Music::schema_spec(), x.fields_spec());
}

/// The JSON notation needs no side condition: even empty text
/// fields round-trip there.
#[verifier::rlimit(30)]
pub proof fn lemma_music_json_round_trip(x: Music)
    ensures
        decode_json_spec(
            Music::tag_spec(),
            Music::schema_spec(),
            encode_json_spec(Music::tag_spec(), Music::schema_spec(), x.fields_spec()),
        ) == Ok::<_, SegErr>(x.fields_spec()),
{
    assert(crate::text::lower_chars(Music::tag_spec()) =~= Music::tag_spec());
    assert(wf_tag(Music::tag_spec()));
    assert(wf_schema(Music::schema_spec())) by {
        let sch = Music::schema_spec();
        assert(sch[0].0.len() != sch[1].0.len());
        assert(sch[0].0.len() != sch[2].0.len());
        assert(sch[0].0.len() != sch[3].0.len());
        assert(sch[0].0.len() != sch[4].0.len());
        assert(sch[0].0.len() != sch[5].0.len());
        assert(sch[0].0.len() != sch[6].0.len());
        assert(sch[1].0.len() != sch[2].0.len());
        assert(sch[1].0.len() != sch[3].0.len());
        assert(sch[1].0.len() != sch[4].0.len());
        assert(sch[1].0.len() != sch[5].0.len());
        assert(sch[1].0.len() != sch[6].0.len());
        assert(sch[2].0.len() != sch[3].0.len());
        assert(sch[2].0.len() != sch[4].0.len());
        assert(sch[2].0.len() != sch[5].0.len());
        assert(sch[2].0.len() != sch[6].0.len());
        assert(sch[3].0[0] != sch[4].0[0]);
        assert(sch[3].0.len() != sch[5].0.len());
        assert(sch[3].0[0] != sch[6].0[0]);
        assert(sch[4].0.len() != sch[5].0.len());
        assert(sch[4].0[0] != sch[6].0[0]);
        assert(sch[5].0.len() != sch[6].0.len());
    }
    assert(wf_vals(Music::schema_spec(), x.fields_spec()));
    crate::message::cq_code::lemma_json_round_trip(Music::tag_spec(), Music::schema_spec(), x.fields_spec());
}

/// A picture.
#[derive(Debug)]
pub struct Image {
    pub file: Option<String>,
    pub type_: Option<String>,
    pub subType: Option<String>,
    pub url: Option<String>,
    pub cache: Option<BoolInCQCode>,
    pub id: Option<i32>,
    pub c: Option<i32>,
}

impl Image {
    /// The shape's canonical tag.
    pub open spec fn tag_spec() -> Seq<char> {
        seq!['i', 'm', 'a', 'g', 'e']
    }

    /// The shape's schema: wire names and kinds, in declaration order.
    pub open spec fn schema_spec() -> Seq<(Seq<char>, FieldKind)> {
        seq![
            (seq!['f', 'i', 'l', 'e'], FieldKind::Text),
            (seq!['t', 'y', 'p', 'e'], FieldKind::Text),
            (seq!['s', 'u', 'b', 'T', 'y', 'p', 'e'], FieldKind::Text),
            (seq!['u', 'r', 'l'], FieldKind::Text),
            (seq!['c', 'a', 'c', 'h', 'e'], FieldKind::Int8),
            (seq!['i', 'd'], FieldKind::Int32),
            (seq!['c'], FieldKind::Int32),
        ]
    }

    /// The instance's field values, parallel to the schema.
    pub open spec fn fields_spec(&self) -> Seq<Option<FieldVal>> {
        seq![
            match self.file { Some(s) => Some(FieldVal::Text(s@)), None => None },
            match self.type_ { Some(s) => Some(FieldVal::Text(s@)), None => None },
            match self.subType { Some(s) => Some(FieldVal::Text(s@)), None => None },
            match self.url { Some(s) => Some(FieldVal::Text(s@)), None => None },
            match self.cache { Some(v) => Some(FieldVal::Int(v as int)), None => None },
            match self.id { Some(v) => Some(FieldVal::Int(v as int)), None => None },
            match self.c { Some(v) => Some(FieldVal::Int(v as int)), None => None },
        ]
    }

    fn decls() -> (r: Vec<FieldDecl>)
        ensures
            schema_view(r@) == Self::schema_spec(),
    {
        let mut r: Vec<FieldDecl> = Vec::new();
        r.push(FieldDecl { name: "file".to_owned(), kind: FieldKind::Text });
        r.push(FieldDecl { name: "type".to_owned(), kind: FieldKind::Text });
        r.push(FieldDecl { name: "subType".to_owned(), kind: FieldKind::Text });
        r.push(FieldDecl { name: "url".to_owned(), kind: FieldKind::Text });
        r.push(FieldDecl { name: "cache".to_owned(), kind: FieldKind::Int8 });
        r.push(FieldDecl { name: "id".to_owned(), kind: FieldKind::Int32 });
        r.push(FieldDecl { name: "c".to_owned(), kind: FieldKind::Int32 });
        proof {
            reveal_strlit("file");
            reveal_strlit("type");
            reveal_strlit("subType");
            reveal_strlit("url");
            reveal_strlit("cache");
            reveal_strlit("id");
            reveal_strlit("c");
            assert("file"@ =~= seq!['f', 'i', 'l', 'e']);
            assert("type"@ =~= seq!['t', 'y', 'p', 'e']);
            assert("subType"@ =~= seq!['s', 'u', 'b', 'T', 'y', 'p', 'e']);
            assert("url"@ =~= seq!['u', 'r', 'l']);
            assert("cache"@ =~= seq!['c', 'a', 'c', 'h', 'e']);
            assert("id"@ =~= seq!['i', 'd']);
            assert("c"@ =~= seq!['c']);
            assert(schema_view(r@) =~= Self::schema_spec());
        }
        r
    }

    fn to_vals(&self) -> (r: Vec<Option<FieldValue>>)
        ensures
            vals_view(r@) == self.fields_spec(),
    {
        let mut r: Vec<Option<FieldValue>> = Vec::new();
        r.push(match &self.file {
            Some(s) => Some(FieldValue::Text(s.clone())),
            None => None,
        });
        r.push(match &self.type_ {
            Some(s) => Some(FieldValue::Text(s.clone())),
            None => None,
        });
        r.push(match &self.subType {
            Some(s) => Some(FieldValue::Text(s.clone())),
            None => None,
        });
        r.push(match &self.url {
            Some(s) => Some(FieldValue::Text(s.clone())),
            None => None,
        });
        r.push(match &self.cache {
            Some(v) => Some(FieldValue::Int(*v as i64)),
            None => None,
        });
        r.push(match &self.id {
            Some(v) => Some(FieldValue::Int(*v as i64)),
            None => None,
        });
        r.push(match &self.c {
            Some(v) => Some(FieldValue::Int(*v as i64)),
            None => None,
        });
        proof {
            assert(vals_view(r@) =~= self.fields_spec());
        }
        r
    }

    fn from_vals(vals: &Vec<Option<FieldValue>>) -> (r: Image)
        requires
            wf_vals(Self::schema_spec(), vals_view(vals@)),
        ensures
            r.fields_spec() == vals_view(vals@),
    {
        let r = Image {
            file: match &vals[0] {
                Some(FieldValue::Text(s)) => Some(s.clone()),
                _ => None,
            },
            type_: match &vals[1] {
                Some(FieldValue::Text(s)) => Some(s.clone()),
                _ => None,
            },
            subType: match &vals[2] {
                Some(FieldValue::Text(s)) => Some(s.clone()),
                _ => None,
            },
            url: match &vals[3] {
                Some(FieldValue::Text(s)) => Some(s.clone()),
                _ => None,
            },
            cache: match &vals[4] {
                Some(FieldValue::Int(n)) => Some(#[verifier::truncate] (*n as i8)),
                _ => None,
            },
            id: match &vals[5] {
                Some(FieldValue::Int(n)) => Some(#[verifier::truncate] (*n as i32)),
                _ => None,
            },
            c: match &vals[6] {
                Some(FieldValue::Int(n)) => Some(#[verifier::truncate] (*n as i32)),
                _ => None,
            },
        };
        proof {
            assert(r.fields_spec() =~= vals_view(vals@));
        }
        r
    }
}

impl CQCode for Image {
    fn to_string(&self) -> (r: String)
        ensures
            r@ == encode_inline_spec(Image::tag_spec(), Image::schema_spec(), self.fields_spec()),
    {
        let d = Image::decls();
        let v = self.to_vals();
        proof {
            reveal_strlit("image");
            assert("image"@ =~= Image::tag_spec());
            assert(schema_view(d@).len() == d@.len());
            assert(vals_view(v@).len() == v@.len());
        }
        encode_inline("image", &d, &v)
    }

    fn from_string(s: String) -> (r: Result<Image, SegmentError>)
        ensures
            match r {
                Ok(x) => decode_inline_spec(Image::tag_spec(), Image::schema_spec(), s@)
                    == Ok::<_, SegErr>(x.fields_spec()),
                Err(e) => decode_inline_spec(Image::tag_spec(), Image::schema_spec(), s@)
                    == Err::<Seq<Option<FieldVal>>, _>(e@),
            },
    {
        let chars = str_chars(s.as_str());
        let d = Image::decls();
        proof {
            reveal_strlit("image");
            assert("image"@ =~= Image::tag_spec());
        }
        match decode_inline("image", &d, &chars) {
            Ok(vals) => {
                proof {
                    let schema = Image::schema_spec();
                    let pairs = pairs_from(s@, word_run_end(s@, 4));
                    let acc = none_fields(schema.len() as int);
                    assert(apply_pairs(schema, pairs, acc) == Ok::<_, SegErr>(vals_view(vals@)));
                    lemma_apply_pairs_len(schema, pairs, acc);
                    lemma_apply_pairs_fits(schema, pairs, acc);
                }
                Ok(Image::from_vals(&vals))
            }
            Err(e) => Err(e),
        }
    }

    fn to_json(&self) -> (r: Result<String, SegmentError>)
        ensures
            r matches Ok(t) && t@ == encode_json_spec(
                Image::tag_spec(),
                Image::schema_spec(),
                self.fields_spec(),
            ),
    {
        let d = Image::decls();
        let v = self.to_vals();
        proof {
            reveal_strlit("image");
            assert("image"@ =~= Image::tag_spec());
            assert(schema_view(d@).len() == d@.len());
            assert(vals_view(v@).len() == v@.len());
        }
        Ok(encode_json("image", &d, &v))
    }

    fn from_json(s: &str) -> (r: Result<Image, SegmentError>)
        ensures
            match r {
                Ok(x) => decode_json_spec(Image::tag_spec(), Image::schema_spec(), s@)
                    == Ok::<_, SegErr>(x.fields_spec()),
                Err(e) => decode_json_spec(Image::tag_spec(), Image::schema_spec(), s@)
                    == Err::<Seq<Option<FieldVal>>, _>(e@),
            },
    {
        let chars = str_chars(s);
        let d = Image::decls();
        proof {
            reveal_strlit("image");
            assert("image"@ =~= Image::tag_spec());
        }
        match decode_json("image", &d, &chars) {
            Ok(vals) => {
                proof {
                    let schema = Image::schema_spec();
                    let acc = none_fields(schema.len() as int);
                    match parse_json_text(s@) {
                        Some(JsonV::Obj(fs)) => {
                            match obj_get(fs, data_key()) {
                                Some(JsonV::Obj(dfs)) => {
                                    assert(apply_jmembers(schema, dfs, acc)
                                        == Ok::<_, SegErr>(vals_view(vals@)));
                                    lemma_apply_jmembers_len(schema, dfs, acc);
                                    lemma_apply_jmembers_fits(schema, dfs, acc);
                                }
                                _ => {}
                            }
                        }
                        _ => {}
                    }
                }
                Ok(Image::from_vals(&vals))
            }
            Err(e) => Err(e),
        }
    }
}

/// Round trip: decoding the encoded form of a representable instance
/// of this shape gives its fields back, in both notations.
#[verifier::rlimit(30)]
pub proof fn lemma_image_round_trip(x: Image)
    requires
        inline_representable(x.fields_spec()),
    ensures
        decode_inline_spec(
            Image::tag_spec(),
            Image::schema_spec(),
            encode_inline_spec(Image::tag_spec(), Image::schema_spec(), x.fields_spec()),
        ) == Ok::<_, SegErr>(x.fields_spec()),
        decode_json_spec(
            Image::tag_spec(),
            Image::schema_spec(),
            encode_json_spec(Image::tag_spec(), Image::schema_spec(), x.fields_spec()),
        ) == Ok::<_, SegErr>(x.fields_spec()),
{
    assert(crate::text::lower_chars(Image::tag_spec()) =~= Image::tag_spec());
    assert(wf_tag(Image::tag_spec()));
    assert(wf_schema(Image::schema_spec())) by {
        let sch = Image::schema_spec();
        assert(sch[0].0[0] != sch[1].0[0]);
        assert(sch[0].0.len() != sch[2].0.len());
        assert(sch[0].0.len() != sch[3].0.len());
        assert(sch[0].0.len() != sch[4].0.len());
        assert(sch[0].0.len() != sch[5].0.len());
        assert(sch[0].0.len() != sch[6].0.len());
        assert(sch[1].0.len() != sch[2].0.len());
        assert(sch[1].0.len() != sch[3].0.len());
        assert(sch[1].0.len() != sch[4].0.len());
        assert(sch[1].0.len() != sch[5].0.len());
        assert(sch[1].0.len() != sch[6].0.len());
        assert(sch[2].0.len() != sch[3].0.len());
        assert(sch[2].0.len() != sch[4].0.len());
        assert(sch[2].0.len() != sch[5].0.len());
        assert(sch[2].0.len() != sch[6].0.len());
        assert(sch[3].0.len() != sch[4].0.len());
        assert(sch[3].0.len() != sch[5].0.len());
        assert(sch[3].0.len() != sch[6].0.len());
        assert(sch[4].0.len() != sch[5].0.len());
        assert(sch[4].0.len() != sch[6].0.len());
        assert(sch[5].0.len() != sch[6].0.len());
    }
    assert(wf_vals(Image::schema_spec(), x.fields_spec()));
    lemma_inline_round_trip(Image::tag_spec(), Image::schema_spec(), x.fields_spec());
    crate::message::cq_code::lemma_json_round_trip(Image::tag_spec(), Image::schema_spec(), x.fields_spec());
}

/// The JSON notation needs no side condition: even empty text
/// fields round-trip there.
#[verifier::rlimit(30)]
pub proof fn lemma_image_json_round_trip(x: Image)
    ensures
        decode_json_spec(
            Image::tag_spec(),
            Image::schema_spec(),
            encode_json_spec(Image::tag_spec(), Image::schema_spec(), x.fields_spec()),
        ) == Ok::<_, SegErr>(x.fields_spec()),
{
    assert(crate::text::lower_chars(Image::tag_spec()) =~= Image::tag_spec());
    assert(wf_tag(Image::tag_spec()));
    assert(wf_schema(Image::schema_spec())) by {
        let sch = Image::schema_spec();
        assert(sch[0].0[0] != sch[1].0[0]);
        assert(sch[0].0.len() != sch[2].0.len());
        assert(sch[0].0.len() != sch[3].0.len());
        assert(sch[0].0.len() != sch[4].0.len());
        assert(sch[0].0.len() != sch[5].0.len());
        assert(sch[0].0.len() != sch[6].0.len());
        assert(sch[1].0.len() != sch[2].0.len());
        assert(sch[1].0.len() != sch[3].0.len());
        assert(sch[1].0.len() != sch[4].0.len());
        assert(sch[1].0.len() != sch[5].0.len());
        assert(sch[1].0.len() != sch[6].0.len());
        assert(sch[2].0.len() != sch[3].0.len());
        assert(sch[2].0.len() != sch[4].0.len());
        assert(sch[2].0.len() != sch[5].0.len());
        assert(sch[2].0.len() != sch[6].0.len());
        assert(sch[3].0.len() != sch[4].0.len());
        assert(sch[3].0.len() != sch[5].0.len());
        assert(sch[3].0.len() != sch[6].0.len());
        assert(sch[4].0.len() != sch[5].0.len());
        assert(sch[4].0.len() != sch[6].0.len());
        assert(sch[5].0.len() != sch[6].0.len());
    }
    assert(wf_vals(Image::schema_spec(), x.fields_spec()));
    crate::message::cq_code::lemma_json_round_trip(Image::tag_spec(), Image::schema_spec(), x.fields_spec());
}

/// A reply to an earlier message.
#[derive(Debug)]
pub struct Reply {
    pub id: Option<i32>,
    pub text: Option<String>,
    pub qq: Option<i64>,
    pub time: Option<i64>,
    pub seq: Option<i64>,
}

impl Reply {
    /// The shape's canonical tag.
    pub open spec fn tag_spec() -> Seq<char> {
        seq!['r', 'e', 'p', 'l', 'y']
    }

    /// The shape's schema: wire names and kinds, in declaration order.
    pub open spec fn schema_spec() -> Seq<(Seq<char>, FieldKind)> {
        seq![
            (seq!['i', 'd'], FieldKind::Int32),
            (seq!['t', 'e', 'x', 't'], FieldKind::Text),
            (seq!['q', 'q'], FieldKind::Int64),
            (seq!['t', 'i', 'm', 'e'], FieldKind::Int64),
            (seq!['s', 'e', 'q'], FieldKind::Int64),
        ]
    }

    /// The instance's field values, parallel to the schema.
    pub open spec fn fields_spec(&self) -> Seq<Option<FieldVal>> {
        seq![
            match self.id { Some(v) => Some(FieldVal::Int(v as int)), None => None },
            match self.text { Some(s) => Some(FieldVal::Text(s@)), None => None },
            match self.qq { Some(v) => Some(FieldVal::Int(v as int)), None => None },
            match self.time { Some(v) => Some(FieldVal::Int(v as int)), None => None },
            match self.seq { Some(v) => Some(FieldVal::Int(v as int)), None => None },
        ]
    }

    fn decls() -> (r: Vec<FieldDecl>)
        ensures
            schema_view(r@) == Self::schema_spec(),
    {
        let mut r: Vec<FieldDecl> = Vec::new();
        r.push(FieldDecl { name: "id".to_owned(), kind: FieldKind::Int32 });
        r.push(FieldDecl { name: "text".to_owned(), kind: FieldKind::Text });
        r.push(FieldDecl { name: "qq".to_owned(), kind: FieldKind::Int64 });
        r.push(FieldDecl { name: "time".to_owned(), kind: FieldKind::Int64 });
        r.push(FieldDecl { name: "seq".to_owned(), kind: FieldKind::Int64 });
        proof {
            reveal_strlit("id");
            reveal_strlit("text");
            reveal_strlit("qq");
            reveal_strlit("time");
            reveal_strlit("seq");
            assert("id"@ =~= seq!['i', 'd']);
            assert("text"@ =~= seq!['t', 'e', 'x', 't']);
            assert("qq"@ =~= seq!['q', 'q']);
            assert("time"@ =~= seq!['t', 'i', 'm', 'e']);
            assert("seq"@ =~= seq!['s', 'e', 'q']);
            assert(schema_view(r@) =~= Self::schema_spec());
        }
        r
    }

    fn to_vals(&self) -> (r: Vec<Option<FieldValue>>)
        ensures
            vals_view(r@) == self.fields_spec(),
    {
        let mut r: Vec<Option<FieldValue>> = Vec::new();
        r.push(match &self.id {
            Some(v) => Some(FieldValue::Int(*v as i64)),
            None => None,
        });
        r.push(match &self.text {
            Some(s) => Some(FieldValue::Text(s.clone())),
            None => None,
        });
        r.push(match &self.qq {
            Some(v) => Some(FieldValue::Int(*v as i64)),
            None => None,
        });
        r.push(match &self.time {
            Some(v) => Some(FieldValue::Int(*v as i64)),
            None => None,
        });
        r.push(match &self.seq {
            Some(v) => Some(FieldValue::Int(*v as i64)),
            None => None,
        });
        proof {
            assert(vals_view(r@) =~= self.fields_spec());
        }
        r
    }

    fn from_vals(vals: &Vec<Option<FieldValue>>) -> (r: Reply)
        requires
            wf_vals(Self::schema_spec(), vals_view(vals@)),
        ensures
            r.fields_spec() == vals_view(vals@),
    {
        let r = Reply {
            id: match &vals[0] {
                Some(FieldValue::Int(n)) => Some(#[verifier::truncate] (*n as i32)),
                _ => None,
            },
            text: match &vals[1] {
                Some(FieldValue::Text(s)) => Some(s.clone()),
                _ => None,
            },
            qq: match &vals[2] {
                Some(FieldValue::Int(n)) => Some(*n),
                _ => None,
            },
            time: match &vals[3] {
                Some(FieldValue::Int(n)) => Some(*n),
                _ => None,
            },
            seq: match &vals[4] {
                Some(FieldValue::Int(n)) => Some(*n),
                _ => None,
            },
        };
        proof {
            assert(r.fields_spec() =~= vals_view(vals@));
        }
        r
    }
}

impl CQCode for Reply {
    fn to_string(&self) -> (r: String)
        ensures
            r@ == encode_inline_spec(Reply::tag_spec(), Reply::schema_spec(), self.fields_spec()),
    {
        let d = Reply::decls();
        let v = self.to_vals();
        proof {
            reveal_strlit("reply");
            assert("reply"@ =~= Reply::tag_spec());
            assert(schema_view(d@).len() == d@.len());
            assert(vals_view(v@).len() == v@.len());
        }
        encode_inline("reply", &d, &v)
    }

    fn from_string(s: String) -> (r: Result<Reply, SegmentError>)
        ensures
            match r {
                Ok(x) => decode_inline_spec(Reply::tag_spec(), Reply::schema_spec(), s@)
                    == Ok::<_, SegErr>(x.fields_spec()),
                Err(e) => decode_inline_spec(Reply::tag_spec(), Reply::schema_spec(), s@)
                    == Err::<Seq<Option<FieldVal>>, _>(e@),
            },
    {
        let chars = str_chars(s.as_str());
        let d = Reply::decls();
        proof {
            reveal_strlit("reply");
            assert("reply"@ =~= Reply::tag_spec());
        }
        match decode_inline("reply", &d, &chars) {
            Ok(vals) => {
                proof {
                    let schema = Reply::schema_spec();
                    let pairs = pairs_from(s@, word_run_end(s@, 4));
                    let acc = none_fields(schema.len() as int);
                    assert(apply_pairs(schema, pairs, acc) == Ok::<_, SegErr>(vals_view(vals@)));
                    lemma_apply_pairs_len(schema, pairs, acc);
                    lemma_apply_pairs_fits(schema, pairs, acc);
                }
                Ok(Reply::from_vals(&vals))
            }
            Err(e) => Err(e),
        }
    }

    fn to_json(&self) -> (r: Result<String, SegmentError>)
        ensures
            r matches Ok(t) && t@ == encode_json_spec(
                Reply::tag_spec(),
                Reply::schema_spec(),
                self.fields_spec(),
            ),
    {
        let d = Reply::decls();
        let v = self.to_vals();
        proof {
            reveal_strlit("reply");
            assert("reply"@ =~= Reply::tag_spec());
            assert(schema_view(d@).len() == d@.len());
            assert(vals_view(v@).len() == v@.len());
        }
        Ok(encode_json("reply", &d, &v))
    }

    fn from_json(s: &str) -> (r: Result<Reply, SegmentError>)
        ensures
            match r {
                Ok(x) => decode_json_spec(Reply::tag_spec(), Reply::schema_spec(), s@)
                    == Ok::<_, SegErr>(x.fields_spec()),
                Err(e) => decode_json_spec(Reply::tag_spec(), Reply::schema_spec(), s@)
                    == Err::<Seq<Option<FieldVal>>, _>(e@),
            },
    {
        let chars = str_chars(s);
        let d = Reply::decls();
        proof {
            reveal_strlit("reply");
            assert("reply"@ =~= Reply::tag_spec());
        }
        match decode_json("reply", &d, &chars) {
            Ok(vals) => {
                proof {
                    let schema = Reply::schema_spec();
                    let acc = none_fields(schema.len() as int);
                    match parse_json_text(s@) {
                        Some(JsonV::Obj(fs)) => {
                            match obj_get(fs, data_key()) {
                                Some(JsonV::Obj(dfs)) => {
                                    assert(apply_jmembers(schema, dfs, acc)
                                        == Ok::<_, SegErr>(vals_view(vals@)));
                                    lemma_apply_jmembers_len(schema, dfs, acc);
                                    lemma_apply_jmembers_fits(schema, dfs, acc);
                                }
                                _ => {}
                            }
                        }
                        _ => {}
                    }
                }
                Ok(Reply::from_vals(&vals))
            }
            Err(e) => Err(e),
        }
    }
}

/// Round trip: decoding the encoded form of a representable instance
/// of this shape gives its fields back, in both notations.
#[verifier::rlimit(30)]
pub proof fn lemma_reply_round_trip(x: Reply)
    requires
        inline_representable(x.fields_spec()),
    ensures
        decode_inline_spec(
            Reply::tag_spec(),
            Reply::schema_spec(),
            encode_inline_spec(Reply::tag_spec(), Reply::schema_spec(), x.fields_spec()),
        ) == Ok::<_, SegErr>(x.fields_spec()),
        decode_json_spec(
            Reply::tag_spec(),
            Reply::schema_spec(),
            encode_json_spec(Reply::tag_spec(), Reply::schema_spec(), x.fields_spec()),
        ) == Ok::<_, SegErr>(x.fields_spec()),
{
    assert(crate::text::lower_chars(Reply::tag_spec()) =~= Reply::tag_spec());
    assert(wf_tag(Reply::tag_spec()));
    assert(wf_schema(Reply::schema_spec())) by {
        let sch = Reply::schema_spec();
        assert(sch[0].0.len() != sch[1].0.len());
        assert(sch[0].0[0] != sch[2].0[0]);
        assert(sch[0].0.len() != sch[3].0.len());
        assert(sch[0].0.len() != sch[4].0.len());
        assert(sch[1].0.len() != sch[2].0.len());
        assert(sch[1].0[1] != sch[3].0[1]);
        assert(sch[1].0.len() != sch[4].0.len());
        assert(sch[2].0.len() != sch[3].0.len());
        assert(sch[2].0.len() != sch[4].0.len());
        assert(sch[3].0.len() != sch[4].0.len());
    }
    assert(wf_vals(Reply::schema_spec(), x.fields_spec()));
    lemma_inline_round_trip(Reply::tag_spec(), Reply::schema_spec(), x.fields_spec());
    crate::message::cq_code::lemma_json_round_trip(Reply::tag_spec(), Reply::schema_spec(), x.fields_spec());
}

/// The JSON notation needs no side condition: even empty text
/// fields round-trip there.
#[verifier::rlimit(30)]
pub proof fn lemma_reply_json_round_trip(x: Reply)
    ensures
        decode_json_spec(
            Reply::tag_spec(),
            Reply::schema_spec(),
            encode_json_spec(Reply::tag_spec(), Reply::schema_spec(), x.fields_spec()),
        ) == Ok::<_, SegErr>(x.fields_spec()),
{
    assert(crate::text::lower_chars(Reply::tag_spec()) =~= Reply::tag_spec());
    assert(wf_tag(Reply::tag_spec()));
    assert(wf_schema(Reply::schema_spec())) by {
        let sch = Reply::schema_spec();
        assert(sch[0].0.len() != sch[1].0.len());
        assert(sch[0].0[0] != sch[2].0[0]);
        assert(sch[0].0.len() != sch[3].0.len());
        assert(sch[0].0.len() != sch[4].0.len());
        assert(sch[1].0.len() != sch[2].0.len());
        assert(sch[1].0[1] != sch[3].0[1]);
        assert(sch[1].0.len() != sch[4].0.len());
        assert(sch[2].0.len() != sch[3].0.len());
        assert(sch[2].0.len() != sch[4].0.len());
        assert(sch[3].0.len() != sch[4].0.len());
    }
    assert(wf_vals(Reply::schema_spec(), x.fields_spec()));
    crate::message::cq_code::lemma_json_round_trip(Reply::tag_spec(), Reply::schema_spec(), x.fields_spec());
}

/// A red envelope.
#[derive(Debug)]
pub struct RedBag {
    pub title: Option<String>,
}

impl RedBag {
    /// The shape's canonical tag.
    pub open spec fn tag_spec() -> Seq<char> {
        seq!['r', 'e', 'd', 'b', 'a', 'g']
    }

    /// The shape's schema: wire names and kinds, in declaration order.
    pub open spec fn schema_spec() -> Seq<(Seq<char>, FieldKind)> {
        seq![
            (seq!['t', 'i', 't', 'l', 'e'], FieldKind::Text),
        ]
    }

    /// The instance's field values, parallel to the schema.
    pub open spec fn fields_spec(&self) -> Seq<Option<FieldVal>> {
        seq![
            match self.title { Some(s) => Some(FieldVal::Text(s@)), None => None },
        ]
    }

    fn decls() -> (r: Vec<FieldDecl>)
        ensures
            schema_view(r@) == Self::schema_spec(),
    {
        let mut r: Vec<FieldDecl> = Vec::new();
        r.push(FieldDecl { name: "title".to_owned(), kind: FieldKind::Text });
        proof {
            reveal_strlit("title");
            assert("title"@ =~= seq!['t', 'i', 't', 'l', 'e']);
            assert(schema_view(r@) =~= Self::schema_spec());
        }
        r
    }

    fn to_vals(&self) -> (r: Vec<Option<FieldValue>>)
        ensures
            vals_view(r@) == self.fields_spec(),
    {
        let mut r: Vec<Option<FieldValue>> = Vec::new();
        r.push(match &self.title {
            Some(s) => Some(FieldValue::Text(s.clone())),
            None => None,
        });
        proof {
            assert(vals_view(r@) =~= self.fields_spec());
        }
        r
    }

    fn from_vals(vals: &Vec<Option<FieldValue>>) -> (r: RedBag)
        requires
            wf_vals(Self::schema_spec(), vals_view(vals@)),
        ensures
            r.fields_spec() == vals_view(vals@),
    {
        let r = RedBag {
            title: match &vals[0] {
                Some(FieldValue::Text(s)) => Some(s.clone()),
                _ => None,
            },
        };
        proof {
            assert(r.fields_spec() =~= vals_view(vals@));
        }
        r
    }
}

impl CQCode for RedBag {
    fn to_string(&self) -> (r: String)
        ensures
            r@ == encode_inline_spec(RedBag::tag_spec(), RedBag::schema_spec(), self.fields_spec()),
    {
        let d = RedBag::decls();
        let v = self.to_vals();
        proof {
            reveal_strlit("redbag");
            assert("redbag"@ =~= RedBag::tag_spec());
            assert(schema_view(d@).len() == d@.len());
            assert(vals_view(v@).len() == v@.len());
        }
        encode_inline("redbag", &d, &v)
    }

    fn from_string(s: String) -> (r: Result<RedBag, SegmentError>)
        ensures
            match r {
                Ok(x) => decode_inline_spec(RedBag::tag_spec(), RedBag::schema_spec(), s@)
                    == Ok::<_, SegErr>(x.fields_spec()),
                Err(e) => decode_inline_spec(RedBag::tag_spec(), RedBag::schema_spec(), s@)
                    == Err::<Seq<Option<FieldVal>>, _>(e@),
            },
    {
        let chars = str_chars(s.as_str());
        let d = RedBag::decls();
        proof {
            reveal_strlit("redbag");
            assert("redbag"@ =~= RedBag::tag_spec());
        }
        match decode_inline("redbag", &d, &chars) {
            Ok(vals) => {
                proof {
                    let schema = RedBag::schema_spec();
                    let pairs = pairs_from(s@, word_run_end(s@, 4));
                    let acc = none_fields(schema.len() as int);
                    assert(apply_pairs(schema, pairs, acc) == Ok::<_, SegErr>(vals_view(vals@)));
                    lemma_apply_pairs_len(schema, pairs, acc);
                    lemma_apply_pairs_fits(schema, pairs, acc);
                }
                Ok(RedBag::from_vals(&vals))
            }
            Err(e) => Err(e),
        }
    }

    fn to_json(&self) -> (r: Result<String, SegmentError>)
        ensures
            r matches Ok(t) && t@ == encode_json_spec(
                RedBag::tag_spec(),
                RedBag::schema_spec(),
                self.fields_spec(),
            ),
    {
        let d = RedBag::decls();
        let v = self.to_vals();
        proof {
            reveal_strlit("redbag");
            assert("redbag"@ =~= RedBag::tag_spec());
            assert(schema_view(d@).len() == d@.len());
            assert(vals_view(v@).len() == v@.len());
        }
        Ok(encode_json("redbag", &d, &v))
    }

    fn from_json(s: &str) -> (r: Result<RedBag, SegmentError>)
        ensures
            match r {
                Ok(x) => decode_json_spec(RedBag::tag_spec(), RedBag::schema_spec(), s@)
                    == Ok::<_, SegErr>(x.fields_spec()),
                Err(e) => decode_json_spec(RedBag::tag_spec(), RedBag::schema_spec(), s@)
                    == Err::<Seq<Option<FieldVal>>, _>(e@),
            },
    {
        let chars = str_chars(s);
        let d = RedBag::decls();
        proof {
            reveal_strlit("redbag");
            assert("redbag"@ =~= RedBag::tag_spec());
        }
        match decode_json("redbag", &d, &chars) {
            Ok(vals) => {
                proof {
                    let schema = RedBag::schema_spec();
                    let acc = none_fields(schema.len() as int);
                    match parse_json_text(s@) {
                        Some(JsonV::Obj(fs)) => {
                            match obj_get(fs, data_key()) {
                                Some(JsonV::Obj(dfs)) => {
                                    assert(apply_jmembers(schema, dfs, acc)
                                        == Ok::<_, SegErr>(vals_view(vals@)));
                                    lemma_apply_jmembers_len(schema, dfs, acc);
                                    lemma_apply_jmembers_fits(schema, dfs, acc);
                                }
                                _ => {}
                            }
                        }
                        _ => {}
                    }
                }
                Ok(RedBag::from_vals(&vals))
            }
            Err(e) => Err(e),
        }
    }
}

/// Round trip: decoding the encoded form of a representable instance
/// of this shape gives its fields back, in both notations.
#[verifier::rlimit(30)]
pub proof fn lemma_redbag_round_trip(x: RedBag)
    requires
        inline_representable(x.fields_spec()),
    ensures
        decode_inline_spec(
            RedBag::tag_spec(),
            RedBag::schema_spec(),
            encode_inline_spec(RedBag::tag_spec(), RedBag::schema_spec(), x.fields_spec()),
        ) == Ok::<_, SegErr>(x.fields_spec()),
        decode_json_spec(
            RedBag::tag_spec(),
            RedBag::schema_spec(),
            encode_json_spec(RedBag::tag_spec(), RedBag::schema_spec(), x.fields_spec()),
        ) == Ok::<_, SegErr>(x.fields_spec()),
{
    assert(crate::text::lower_chars(RedBag::tag_spec()) =~= RedBag::tag_spec());
    assert(wf_tag(RedBag::tag_spec()));
    assert(wf_schema(RedBag::schema_spec()));
    assert(wf_vals(RedBag::schema_spec(), x.fields_spec()));
    lemma_inline_round_trip(RedBag::tag_spec(), RedBag::schema_spec(), x.fields_spec());
    crate::message::cq_code::lemma_json_round_trip(RedBag::tag_spec(), RedBag::schema_spec(), x.fields_spec());
}

/// The JSON notation needs no side condition: even empty text
/// fields round-trip there.
#[verifier::rlimit(30)]
pub proof fn lemma_redbag_json_round_trip(x: RedBag)
    ensures
        decode_json_spec(
            RedBag::tag_spec(),
            RedBag::schema_spec(),
            encode_json_spec(RedBag::tag_spec(), RedBag::schema_spec(), x.fields_spec()),
        ) == Ok::<_, SegErr>(x.fields_spec()),
{
    assert(crate::text::lower_chars(RedBag::tag_spec()) =~= RedBag::tag_spec());
    assert(wf_tag(RedBag::tag_spec()));
    assert(wf_schema(RedBag::schema_spec()));
    assert(wf_vals(RedBag::schema_spec(), x.fields_spec()));
    crate::message::cq_code::lemma_json_round_trip(RedBag::tag_spec(), RedBag::schema_spec(), x.fields_spec());
}

/// A poke at a group member.
#[derive(Debug)]
pub struct Poke {
    pub qq: Option<i64>,
}

impl Poke {
    /// The shape's canonical tag.
    pub open spec fn tag_spec() -> Seq<char> {
        seq!['p', 'o', 'k', 'e']
    }

    /// The shape's schema: wire names and kinds, in declaration order.
    pub open spec fn schema_spec() -> Seq<(Seq<char>, FieldKind)> {
        seq![
            (seq!['q', 'q'], FieldKind::Int64),
        ]
    }

    /// The instance's field values, parallel to the schema.
    pub open spec fn fields_spec(&self) -> Seq<Option<FieldVal>> {
        seq![
            match self.qq { Some(v) => Some(FieldVal::Int(v as int)), None => None },
        ]
    }

    fn decls() -> (r: Vec<FieldDecl>)
        ensures
            schema_view(r@) == Self::schema_spec(),
    {
        let mut r: Vec<FieldDecl> = Vec::new();
        r.push(FieldDecl { name: "qq".to_owned(), kind: FieldKind::Int64 });
        proof {
            reveal_strlit("qq");
            assert("qq"@ =~= seq!['q', 'q']);
            assert(schema_view(r@) =~= Self::schema_spec());
        }
        r
    }

    fn to_vals(&self) -> (r: Vec<Option<FieldValue>>)
        ensures
            vals_view(r@) == self.fields_spec(),
    {
        let mut r: Vec<Option<FieldValue>> = Vec::new();
        r.push(match &self.qq {
            Some(v) => Some(FieldValue::Int(*v as i64)),
            None => None,
        });
        proof {
            assert(vals_view(r@) =~= self.fields_spec());
        }
        r
    }

    fn from_vals(vals: &Vec<Option<FieldValue>>) -> (r: Poke)
        requires
            wf_vals(Self::schema_spec(), vals_view(vals@)),
        ensures
            r.fields_spec() == vals_view(vals@),
    {
        let r = Poke {
            qq: match &vals[0] {
                Some(FieldValue::Int(n)) => Some(*n),
                _ => None,
            },
        };
        proof {
            assert(r.fields_spec() =~= vals_view(vals@));
        }
        r
    }
}

impl CQCode for Poke {
    fn to_string(&self) -> (r: String)
        ensures
            r@ == encode_inline_spec(Poke::tag_spec(), Poke::schema_spec(), self.fields_spec()),
    {
        let d = Poke::decls();
        let v = self.to_vals();
        proof {
            reveal_strlit("poke");
            assert("poke"@ =~= Poke::tag_spec());
            assert(schema_view(d@).len() == d@.len());
            assert(vals_view(v@).len() == v@.len());
        }
        encode_inline("poke", &d, &v)
    }

    fn from_string(s: String) -> (r: Result<Poke, SegmentError>)
        ensures
            match r {
                Ok(x) => decode_inline_spec(Poke::tag_spec(), Poke::schema_spec(), s@)
                    == Ok::<_, SegErr>(x.fields_spec()),
                Err(e) => decode_inline_spec(Poke::tag_spec(), Poke::schema_spec(), s@)
                    == Err::<Seq<Option<FieldVal>>, _>(e@),
            },
    {
        let chars = str_chars(s.as_str());
        let d = Poke::decls();
        proof {
            reveal_strlit("poke");
            assert("poke"@ =~= Poke::tag_spec());
        }
        match decode_inline("poke", &d, &chars) {
            Ok(vals) => {
                proof {
                    let schema = Poke::schema_spec();
                    let pairs = pairs_from(s@, word_run_end(s@, 4));
                    let acc = none_fields(schema.len() as int);
                    assert(apply_pairs(schema, pairs, acc) == Ok::<_, SegErr>(vals_view(vals@)));
                    lemma_apply_pairs_len(schema, pairs, acc);
                    lemma_apply_pairs_fits(schema, pairs, acc);
                }
                Ok(Poke::from_vals(&vals))
            }
            Err(e) => Err(e),
        }
    }

    fn to_json(&self) -> (r: Result<String, SegmentError>)
        ensures
            r matches Ok(t) && t@ == encode_json_spec(
                Poke::tag_spec(),
                Poke::schema_spec(),
                self.fields_spec(),
            ),
    {
        let d = Poke::decls();
        let v = self.to_vals();
        proof {
            reveal_strlit("poke");
            assert("poke"@ =~= Poke::tag_spec());
            assert(schema_view(d@).len() == d@.len());
            assert(vals_view(v@).len() == v@.len());
        }
        Ok(encode_json("poke", &d, &v))
    }

    fn from_json(s: &str) -> (r: Result<Poke, SegmentError>)
        ensures
            match r {
                Ok(x) => decode_json_spec(Poke::tag_spec(), Poke::schema_spec(), s@)
                    == Ok::<_, SegErr>(x.fields_spec()),
                Err(e) => decode_json_spec(Poke::tag_spec(), Poke::schema_spec(), s@)
                    == Err::<Seq<Option<FieldVal>>, _>(e@),
            },
    {
        let chars = str_chars(s);
        let d = Poke::decls();
        proof {
            reveal_strlit("poke");
            assert("poke"@ =~= Poke::tag_spec());
        }
        match decode_json("poke", &d, &chars) {
            Ok(vals) => {
                proof {
                    let schema = Poke::schema_spec();
                    let acc = none_fields(schema.len() as int);
                    match parse_json_text(s@) {
                        Some(JsonV::Obj(fs)) => {
                            match obj_get(fs, data_key()) {
                                Some(JsonV::Obj(dfs)) => {
                                    assert(apply_jmembers(schema, dfs, acc)
                                        == Ok::<_, SegErr>(vals_view(vals@)));
                                    lemma_apply_jmembers_len(schema, dfs, acc);
                                    lemma_apply_jmembers_fits(schema, dfs, acc);
                                }
                                _ => {}
                            }
                        }
                        _ => {}
                    }
                }
                Ok(Poke::from_vals(&vals))
            }
            Err(e) => Err(e),
        }
    }
}

/// Round trip: decoding the encoded form of a representable instance
/// of this shape gives its fields back, in both notations.
#[verifier::rlimit(30)]
pub proof fn lemma_poke_round_trip(x: Poke)
    ensures
        decode_inline_spec(
            Poke::tag_spec(),
            Poke::schema_spec(),
            encode_inline_spec(Poke::tag_spec(), Poke::schema_spec(), x.fields_spec()),
        ) == Ok::<_, SegErr>(x.fields_spec()),
        decode_json_spec(
            Poke::tag_spec(),
            Poke::schema_spec(),
            encode_json_spec(Poke::tag_spec(), Poke::schema_spec(), x.fields_spec()),
        ) == Ok::<_, SegErr>(x.fields_spec()),
{
    assert(crate::text::lower_chars(Poke::tag_spec()) =~= Poke::tag_spec());
    assert(wf_tag(Poke::tag_spec()));
    assert(wf_schema(Poke::schema_spec()));
    assert(wf_vals(Poke::schema_spec(), x.fields_spec()));
    assert(inline_representable(x.fields_spec()));
    lemma_inline_round_trip(Poke::tag_spec(), Poke::schema_spec(), x.fields_spec());
    crate::message::cq_code::lemma_json_round_trip(Poke::tag_spec(), Poke::schema_spec(), x.fields_spec());
}

/// A gift for a group member.
#[derive(Debug)]
pub struct Gift {
    pub qq: Option<i64>,
    pub id: Option<i32>,
}

impl Gift {
    /// The shape's canonical tag.
    pub open spec fn tag_spec() -> Seq<char> {
        seq!['g', 'i', 'f', 't']
    }

    /// The shape's schema: wire names and kinds, in declaration order.
    pub open spec fn schema_spec() -> Seq<(Seq<char>, FieldKind)> {
        seq![
            (seq!['q', 'q'], FieldKind::Int64),
            (seq!['i', 'd'], FieldKind::Int32),
        ]
    }

    /// The instance's field values, parallel to the schema.
    pub open spec fn fields_spec(&self) -> Seq<Option<FieldVal>> {
        seq![
            match self.qq { Some(v) => Some(FieldVal::Int(v as int)), None => None },
            match self.id { Some(v) => Some(FieldVal::Int(v as int)), None => None },
        ]
    }

    fn decls() -> (r: Vec<FieldDecl>)
        ensures
            schema_view(r@) == Self::schema_spec(),
    {
        let mut r: Vec<FieldDecl> = Vec::new();
        r.push(FieldDecl { name: "qq".to_owned(), kind: FieldKind::Int64 });
        r.push(FieldDecl { name: "id".to_owned(), kind: FieldKind::Int32 });
        proof {
            reveal_strlit("qq");
            reveal_strlit("id");
            assert("qq"@ =~= seq!['q', 'q']);
            assert("id"@ =~= seq!['i', 'd']);
            assert(schema_view(r@) =~= Self::schema_spec());
        }
        r
    }

    fn to_vals(&self) -> (r: Vec<Option<FieldValue>>)
        ensures
            vals_view(r@) == self.fields_spec(),
    {
        let mut r: Vec<Option<FieldValue>> = Vec::new();
        r.push(match &self.qq {
            Some(v) => Some(FieldValue::Int(*v as i64)),
            None => None,
        });
        r.push(match &self.id {
            Some(v) => Some(FieldValue::Int(*v as i64)),
            None => None,
        });
        proof {
            assert(vals_view(r@) =~= self.fields_spec());
        }
        r
    }

    fn from_vals(vals: &Vec<Option<FieldValue>>) -> (r: Gift)
        requires
            wf_vals(Self::schema_spec(), vals_view(vals@)),
        ensures
            r.fields_spec() == vals_view(vals@),
    {
        let r = Gift {
            qq: match &vals[0] {
                Some(FieldValue::Int(n)) => Some(*n),
                _ => None,
            },
            id: match &vals[1] {
                Some(FieldValue::Int(n)) => Some(#[verifier::truncate] (*n as i32)),
                _ => None,
            },
        };
        proof {
            assert(r.fields_spec() =~= vals_view(vals@));
        }
        r
    }
}

impl CQCode for Gift {
    fn to_string(&self) -> (r: String)
        ensures
            r@ == encode_inline_spec(Gift::tag_spec(), Gift::schema_spec(), self.fields_spec()),
    {
        let d = Gift::decls();
        let v = self.to_vals();
        proof {
            reveal_strlit("gift");
            assert("gift"@ =~= Gift::tag_spec());
            assert(schema_view(d@).len() == d@.len());
            assert(vals_view(v@).len() == v@.len());
        }
        encode_inline("gift", &d, &v)
    }

    fn from_string(s: String) -> (r: Result<Gift, SegmentError>)
        ensures
            match r {
                Ok(x) => decode_inline_spec(Gift::tag_spec(), Gift::schema_spec(), s@)
                    == Ok::<_, SegErr>(x.fields_spec()),
                Err(e) => decode_inline_spec(Gift::tag_spec(), Gift::schema_spec(), s@)
                    == Err::<Seq<Option<FieldVal>>, _>(e@),
            },
    {
        let chars = str_chars(s.as_str());
        let d = Gift::decls();
        proof {
            reveal_strlit("gift");
            assert("gift"@ =~= Gift::tag_spec());
        }
        match decode_inline("gift", &d, &chars) {
            Ok(vals) => {
                proof {
                    let schema = Gift::schema_spec();
                    let pairs = pairs_from(s@, word_run_end(s@, 4));
                    let acc = none_fields(schema.len() as int);
                    assert(apply_pairs(schema, pairs, acc) == Ok::<_, SegErr>(vals_view(vals@)));
                    lemma_apply_pairs_len(schema, pairs, acc);
                    lemma_apply_pairs_fits(schema, pairs, acc);
                }
                Ok(Gift::from_vals(&vals))
            }
            Err(e) => Err(e),
        }
    }

    fn to_json(&self) -> (r: Result<String, SegmentError>)
        ensures
            r matches Ok(t) && t@ == encode_json_spec(
                Gift::tag_spec(),
                Gift::schema_spec(),
                self.fields_spec(),
            ),
    {
        let d = Gift::decls();
        let v = self.to_vals();
        proof {
            reveal_strlit("gift");
            assert("gift"@ =~= Gift::tag_spec());
            assert(schema_view(d@).len() == d@.len());
            assert(vals_view(v@).len() == v@.len());
        }
        Ok(encode_json("gift", &d, &v))
    }

    fn from_json(s: &str) -> (r: Result<Gift, SegmentError>)
        ensures
            match r {
                Ok(x) => decode_json_spec(Gift::tag_spec(), Gift::schema_spec(), s@)
                    == Ok::<_, SegErr>(x.fields_spec()),
                Err(e) => decode_json_spec(Gift::tag_spec(), Gift::schema_spec(), s@)
                    == Err::<Seq<Option<FieldVal>>, _>(e@),
            },
    {
        let chars = str_chars(s);
        let d = Gift::decls();
        proof {
            reveal_strlit("gift");
            assert("gift"@ =~= Gift::tag_spec());
        }
        match decode_json("gift", &d, &chars) {
            Ok(vals) => {
                proof {
                    let schema = Gift::schema_spec();
                    let acc = none_fields(schema.len() as int);
                    match parse_json_text(s@) {
                        Some(JsonV::Obj(fs)) => {
                            match obj_get(fs, data_key()) {
                                Some(JsonV::Obj(dfs)) => {
                                    assert(apply_jmembers(schema, dfs, acc)
                                        == Ok::<_, SegErr>(vals_view(vals@)));
                                    lemma_apply_jmembers_len(schema, dfs, acc);
                                    lemma_apply_jmembers_fits(schema, dfs, acc);
                                }
                                _ => {}
                            }
                        }
                        _ => {}
                    }
                }
                Ok(Gift::from_vals(&vals))
            }
            Err(e) => Err(e),
        }
    }
}

/// Round trip: decoding the encoded form of a representable instance
/// of this shape gives its fields back, in both notations.
#[verifier::rlimit(30)]
pub proof fn lemma_gift_round_trip(x: Gift)
    ensures
        decode_inline_spec(
            Gift::tag_spec(),
            Gift::schema_spec(),
            encode_inline_spec(Gift::tag_spec(), Gift::schema_spec(), x.fields_spec()),
        ) == Ok::<_, SegErr>(x.fields_spec()),
        decode_json_spec(
            Gift::tag_spec(),
            Gift::schema_spec(),
            encode_json_spec(Gift::tag_spec(), Gift::schema_spec(), x.fields_spec()),
        ) == Ok::<_, SegErr>(x.fields_spec()),
{
    assert(crate::text::lower_chars(Gift::tag_spec()) =~= Gift::tag_spec());
    assert(wf_tag(Gift::tag_spec()));
    assert(wf_schema(Gift::schema_spec())) by {
        let sch = Gift::schema_spec();
        assert(sch[0].0[0] != sch[1].0[0]);
    }
    assert(wf_vals(Gift::schema_spec(), x.fields_spec()));
    assert(inline_representable(x.fields_spec()));
    lemma_inline_round_trip(Gift::tag_spec(), Gift::schema_spec(), x.fields_spec());
    crate::message::cq_code::lemma_json_round_trip(Gift::tag_spec(), Gift::schema_spec(), x.fields_spec());
}

/// A forwarded-messages reference.
#[derive(Debug)]
pub struct Forward {
    pub id: Option<i32>,
}

impl Forward {
    /// The shape's canonical tag.
    pub open spec fn tag_spec() -> Seq<char> {
        seq!['f', 'o', 'r', 'w', 'a', 'r', 'd']
    }

    /// The shape's schema: wire names and kinds, in declaration order.
    pub open spec fn schema_spec() -> Seq<(Seq<char>, FieldKind)> {
        seq![
            (seq!['i', 'd'], FieldKind::Int32),
        ]
    }

    /// The instance's field values, parallel to the schema.
    pub open spec fn fields_spec(&self) -> Seq<Option<FieldVal>> {
        seq![
            match self.id { Some(v) => Some(FieldVal::Int(v as int)), None => None },
        ]
    }

    fn decls() -> (r: Vec<FieldDecl>)
        ensures
            schema_view(r@) == Self::schema_spec(),
    {
        let mut r: Vec<FieldDecl> = Vec::new();
        r.push(FieldDecl { name: "id".to_owned(), kind: FieldKind::Int32 });
        proof {
            reveal_strlit("id");
            assert("id"@ =~= seq!['i', 'd']);
            assert(schema_view(r@) =~= Self::schema_spec());
        }
        r
    }

    fn to_vals(&self) -> (r: Vec<Option<FieldValue>>)
        ensures
            vals_view(r@) == self.fields_spec(),
    {
        let mut r: Vec<Option<FieldValue>> = Vec::new();
        r.push(match &self.id {
            Some(v) => Some(FieldValue::Int(*v as i64)),
            None => None,
        });
        proof {
            assert(vals_view(r@) =~= self.fields_spec());
        }
        r
    }

    fn from_vals(vals: &Vec<Option<FieldValue>>) -> (r: Forward)
        requires
            wf_vals(Self::schema_spec(), vals_view(vals@)),
        ensures
            r.fields_spec() == vals_view(vals@),
    {
        let r = Forward {
            id: match &vals[0] {
                Some(FieldValue::Int(n)) => Some(#[verifier::truncate] (*n as i32)),
                _ => None,
            },
        };
        proof {
            assert(r.fields_spec() =~= vals_view(vals@));
        }
        r
    }
}

impl CQCode for Forward {
    fn to_string(&self) -> (r: String)
        ensures
            r@ == encode_inline_spec(Forward::tag_spec(), Forward::schema_spec(), self.fields_spec()),
    {
        let d = Forward::decls();
        let v = self.to_vals();
        proof {
            reveal_strlit("forward");
            assert("forward"@ =~= Forward::tag_spec());
            assert(schema_view(d@).len() == d@.len());
            assert(vals_view(v@).len() == v@.len());
        }
        encode_inline("forward", &d, &v)
    }

    fn from_string(s: String) -> (r: Result<Forward, SegmentError>)
        ensures
            match r {
                Ok(x) => decode_inline_spec(Forward::tag_spec(), Forward::schema_spec(), s@)
                    == Ok::<_, SegErr>(x.fields_spec()),
                Err(e) => decode_inline_spec(Forward::tag_spec(), Forward::schema_spec(), s@)
                    == Err::<Seq<Option<FieldVal>>, _>(e@),
            },
    {
        let chars = str_chars(s.as_str());
        let d = Forward::decls();
        proof {
            reveal_strlit("forward");
            assert("forward"@ =~= Forward::tag_spec());
        }
        match decode_inline("forward", &d, &chars) {
            Ok(vals) => {
                proof {
                    let schema = Forward::schema_spec();
                    let pairs = pairs_from(s@, word_run_end(s@, 4));
                    let acc = none_fields(schema.len() as int);
                    assert(apply_pairs(schema, pairs, acc) == Ok::<_, SegErr>(vals_view(vals@)));
                    lemma_apply_pairs_len(schema, pairs, acc);
                    lemma_apply_pairs_fits(schema, pairs, acc);
                }
                Ok(Forward::from_vals(&vals))
            }
            Err(e) => Err(e),
        }
    }

    fn to_json(&self) -> (r: Result<String, SegmentError>)
        ensures
            r matches Ok(t) && t@ == encode_json_spec(
                Forward::tag_spec(),
                Forward::schema_spec(),
                self.fields_spec(),
            ),
    {
        let d = Forward::decls();
        let v = self.to_vals();
        proof {
            reveal_strlit("forward");
            assert("forward"@ =~= Forward::tag_spec());
            assert(schema_view(d@).len() == d@.len());
            assert(vals_view(v@).len() == v@.len());
        }
        Ok(encode_json("forward", &d, &v))
    }

    fn from_json(s: &str) -> (r: Result<Forward, SegmentError>)
        ensures
            match r {
                Ok(x) => decode_json_spec(Forward::tag_spec(), Forward::schema_spec(), s@)
                    == Ok::<_, SegErr>(x.fields_spec()),
                Err(e) => decode_json_spec(Forward::tag_spec(), Forward::schema_spec(), s@)
                    == Err::<Seq<Option<FieldVal>>, _>(e@),
            },
    {
        let chars = str_chars(s);
        let d = Forward::decls();
        proof {
            reveal_strlit("forward");
            assert("forward"@ =~= Forward::tag_spec());
        }
        match decode_json("forward", &d, &chars) {
            Ok(vals) => {
                proof {
                    let schema = Forward::schema_spec();
                    let acc = none_fields(schema.len() as int);
                    match parse_json_text(s@) {
                        Some(JsonV::Obj(fs)) => {
                            match obj_get(fs, data_key()) {
                                Some(JsonV::Obj(dfs)) => {
                                    assert(apply_jmembers(schema, dfs, acc)
                                        == Ok::<_, SegErr>(vals_view(vals@)));
                                    lemma_apply_jmembers_len(schema, dfs, acc);
                                    lemma_apply_jmembers_fits(schema, dfs, acc);
                                }
                                _ => {}
                            }
                        }
                        _ => {}
                    }
                }
                Ok(Forward::from_vals(&vals))
            }
            Err(e) => Err(e),
        }
    }
}

/// Round trip: decoding the encoded form of a representable instance
/// of this shape gives its fields back, in both notations.
#[verifier::rlimit(30)]
pub proof fn lemma_forward_round_trip(x: Forward)
    ensures
        decode_inline_spec(
            Forward::tag_spec(),
            Forward::schema_spec(),
            encode_inline_spec(Forward::tag_spec(), Forward::schema_spec(), x.fields_spec()),
        ) == Ok::<_, SegErr>(x.fields_spec()),
        decode_json_spec(
            Forward::tag_spec(),
            Forward::schema_spec(),
            encode_json_spec(Forward::tag_spec(), Forward::schema_spec(), x.fields_spec()),
        ) == Ok::<_, SegErr>(x.fields_spec()),
{
    assert(crate::text::lower_chars(Forward::tag_spec()) =~= Forward::tag_spec());
    assert(wf_tag(Forward::tag_spec()));
    assert(wf_schema(Forward::schema_spec()));
    assert(wf_vals(Forward::schema_spec(), x.fields_spec()));
    assert(inline_representable(x.fields_spec()));
    lemma_inline_round_trip(Forward::tag_spec(), Forward::schema_spec(), x.fields_spec());
    crate::message::cq_code::lemma_json_round_trip(Forward::tag_spec(), Forward::schema_spec(), x.fields_spec());
}

/// An XML message.
#[derive(Debug)]
pub struct Xml {
    pub data: Option<String>,
    pub resid: Option<i32>,
}

impl Xml {
    /// The shape's canonical tag.
    pub open spec fn tag_spec() -> Seq<char> {
        seq!['x', 'm', 'l']
    }

    /// The shape's schema: wire names and kinds, in declaration order.
    pub open spec fn schema_spec() -> Seq<(Seq<char>, FieldKind)> {
        seq![
            (seq!['d', 'a', 't', 'a'], FieldKind::Text),
            (seq!['r', 'e', 's', 'i', 'd'], FieldKind::Int32),
        ]
    }

    /// The instance's field values, parallel to the schema.
    pub open spec fn fields_spec(&self) -> Seq<Option<FieldVal>> {
        seq![
            match self.data { Some(s) => Some(FieldVal::Text(s@)), None => None },
            match self.resid { Some(v) => Some(FieldVal::Int(v as int)), None => None },
        ]
    }

    fn decls() -> (r: Vec<FieldDecl>)
        ensures
            schema_view(r@) == Self::schema_spec(),
    {
        let mut r: Vec<FieldDecl> = Vec::new();
        r.push(FieldDecl { name: "data".to_owned(), kind: FieldKind::Text });
        r.push(FieldDecl { name: "resid".to_owned(), kind: FieldKind::Int32 });
        proof {
            reveal_strlit("data");
            reveal_strlit("resid");
            assert("data"@ =~= seq!['d', 'a', 't', 'a']);
            assert("resid"@ =~= seq!['r', 'e', 's', 'i', 'd']);
            assert(schema_view(r@) =~= Self::schema_spec());
        }
        r
    }

    fn to_vals(&self) -> (r: Vec<Option<FieldValue>>)
        ensures
            vals_view(r@) == self.fields_spec(),
    {
        let mut r: Vec<Option<FieldValue>> = Vec::new();
        r.push(match &self.data {
            Some(s) => Some(FieldValue::Text(s.clone())),
            None => None,
        });
        r.push(match &self.resid {
            Some(v) => Some(FieldValue::Int(*v as i64)),
            None => None,
        });
        proof {
            assert(vals_view(r@) =~= self.fields_spec());
        }
        r
    }

    fn from_vals(vals: &Vec<Option<FieldValue>>) -> (r: Xml)
        requires
            wf_vals(Self::schema_spec(), vals_view(vals@)),
        ensures
            r.fields_spec() == vals_view(vals@),
    {
        let r = Xml {
            data: match &vals[0] {
                Some(FieldValue::Text(s)) => Some(s.clone()),
                _ => None,
            },
            resid: match &vals[1] {
                Some(FieldValue::Int(n)) => Some(#[verifier::truncate] (*n as i32)),
                _ => None,
            },
        };
        proof {
            assert(r.fields_spec() =~= vals_view(vals@));
        }
        r
    }
}

impl CQCode for Xml {
    fn to_string(&self) -> (r: String)
        ensures
            r@ == encode_inline_spec(Xml::tag_spec(), Xml::schema_spec(), self.fields_spec()),
    {
        let d = Xml::decls();
        let v = self.to_vals();
        proof {
            reveal_strlit("xml");
            assert("xml"@ =~= Xml::tag_spec());
            assert(schema_view(d@).len() == d@.len());
            assert(vals_view(v@).len() == v@.len());
        }
        encode_inline("xml", &d, &v)
    }

    fn from_string(s: String) -> (r: Result<Xml, SegmentError>)
        ensures
            match r {
                Ok(x) => decode_inline_spec(Xml::tag_spec(), Xml::schema_spec(), s@)
                    == Ok::<_, SegErr>(x.fields_spec()),
                Err(e) => decode_inline_spec(Xml::tag_spec(), Xml::schema_spec(), s@)
                    == Err::<Seq<Option<FieldVal>>, _>(e@),
            },
    {
        let chars = str_chars(s.as_str());
        let d = Xml::decls();
        proof {
            reveal_strlit("xml");
            assert("xml"@ =~= Xml::tag_spec());
        }
        match decode_inline("xml", &d, &chars) {
            Ok(vals) => {
                proof {
                    let schema = Xml::schema_spec();
                    let pairs = pairs_from(s@, word_run_end(s@, 4));
                    let acc = none_fields(schema.len() as int);
                    assert(apply_pairs(schema, pairs, acc) == Ok::<_, SegErr>(vals_view(vals@)));
                    lemma_apply_pairs_len(schema, pairs, acc);
                    lemma_apply_pairs_fits(schema, pairs, acc);
                }
                Ok(Xml::from_vals(&vals))
            }
            Err(e) => Err(e),
        }
    }

    fn to_json(&self) -> (r: Result<String, SegmentError>)
        ensures
            r matches Ok(t) && t@ == encode_json_spec(
                Xml::tag_spec(),
                Xml::schema_spec(),
                self.fields_spec(),
            ),
    {
        let d = Xml::decls();
        let v = self.to_vals();
        proof {
            reveal_strlit("xml");
            assert("xml"@ =~= Xml::tag_spec());
            assert(schema_view(d@).len() == d@.len());
            assert(vals_view(v@).len() == v@.len());
        }
        Ok(encode_json("xml", &d, &v))
    }

    fn from_json(s: &str) -> (r: Result<Xml, SegmentError>)
        ensures
            match r {
                Ok(x) => decode_json_spec(Xml::tag_spec(), Xml::schema_spec(), s@)
                    == Ok::<_, SegErr>(x.fields_spec()),
                Err(e) => decode_json_spec(Xml::tag_spec(), Xml::schema_spec(), s@)
                    == Err::<Seq<Option<FieldVal>>, _>(e@),
            },
    {
        let chars = str_chars(s);
        let d = Xml::decls();
        proof {
            reveal_strlit("xml");
            assert("xml"@ =~= Xml::tag_spec());
        }
        match decode_json("xml", &d, &chars) {
            Ok(vals) => {
                proof {
                    let schema = Xml::schema_spec();
                    let acc = none_fields(schema.len() as int);
                    match parse_json_text(s@) {
                        Some(JsonV::Obj(fs)) => {
                            match obj_get(fs, data_key()) {
                                Some(JsonV::Obj(dfs)) => {
                                    assert(apply_jmembers(schema, dfs, acc)
                                        == Ok::<_, SegErr>(vals_view(vals@)));
                                    lemma_apply_jmembers_len(schema, dfs, acc);
                                    lemma_apply_jmembers_fits(schema, dfs, acc);
                                }
                                _ => {}
                            }
                        }
                        _ => {}
                    }
                }
                Ok(Xml::from_vals(&vals))
            }
            Err(e) => Err(e),
        }
    }
}

/// Round trip: decoding the encoded form of a representable instance
/// of this shape gives its fields back, in both notations.
#[verifier::rlimit(30)]
pub proof fn lemma_xml_round_trip(x: Xml)
    requires
        inline_representable(x.fields_spec()),
    ensures
        decode_inline_spec(
            Xml::tag_spec(),
            Xml::schema_spec(),
            encode_inline_spec(Xml::tag_spec(), Xml::schema_spec(), x.fields_spec()),
        ) == Ok::<_, SegErr>(x.fields_spec()),
        decode_json_spec(
            Xml::tag_spec(),
            Xml::schema_spec(),
            encode_json_spec(Xml::tag_spec(), Xml::schema_spec(), x.fields_spec()),
        ) == Ok::<_, SegErr>(x.fields_spec()),
{
    assert(crate::text::lower_chars(Xml::tag_spec()) =~= Xml::tag_spec());
    assert(wf_tag(Xml::tag_spec()));
    assert(wf_schema(Xml::schema_spec())) by {
        let sch = Xml::schema_spec();
        assert(sch[0].0.len() != sch[1].0.len());
    }
    assert(wf_vals(Xml::schema_spec(), x.fields_spec()));
    lemma_inline_round_trip(Xml::tag_spec(), Xml::schema_spec(), x.fields_spec());
    crate::message::cq_code::lemma_json_round_trip(Xml::tag_spec(), Xml::schema_spec(), x.fields_spec());
}

/// The JSON notation needs no side condition: even empty text
/// fields round-trip there.
#[verifier::rlimit(30)]
pub proof fn lemma_xml_json_round_trip(x: Xml)
    ensures
        decode_json_spec(
            Xml::tag_spec(),
            Xml::schema_spec(),
            encode_json_spec(Xml::tag_spec(), Xml::schema_spec(), x.fields_spec()),
        ) == Ok::<_, SegErr>(x.fields_spec()),
{
    assert(crate::text::lower_chars(Xml::tag_spec()) =~= Xml::tag_spec());
    assert(wf_tag(Xml::tag_spec()));
    assert(wf_schema(Xml::schema_spec())) by {
        let sch = Xml::schema_spec();
        assert(sch[0].0.len() != sch[1].0.len());
    }
    assert(wf_vals(Xml::schema_spec(), x.fields_spec()));
    crate::message::cq_code::lemma_json_round_trip(Xml::tag_spec(), Xml::schema_spec(), x.fields_spec());
}

/// A JSON message.
#[derive(Debug)]
pub struct Json {
    pub data: Option<String>,
    pub resid: Option<i32>,
}

impl Json {
    /// The shape's canonical tag.
    pub open spec fn tag_spec() -> Seq<char> {
        seq!['j', 's', 'o', 'n']
    }

    /// The shape's schema: wire names and kinds, in declaration order.
    pub open spec fn schema_spec() -> Seq<(Seq<char>, FieldKind)> {
        seq![
            (seq!['d', 'a', 't', 'a'], FieldKind::Text),
            (seq!['r', 'e', 's', 'i', 'd'], FieldKind::Int32),
        ]
    }

    /// The instance's field values, parallel to the schema.
    pub open spec fn fields_spec(&self) -> Seq<Option<FieldVal>> {
        seq![
            match self.data { Some(s) => Some(FieldVal::Text(s@)), None => None },
            match self.resid { Some(v) => Some(FieldVal::Int(v as int)), None => None },
        ]
    }

    fn decls() -> (r: Vec<FieldDecl>)
        ensures
            schema_view(r@) == Self::schema_spec(),
    {
        let mut r: Vec<FieldDecl> = Vec::new();
        r.push(FieldDecl { name: "data".to_owned(), kind: FieldKind::Text });
        r.push(FieldDecl { name: "resid".to_owned(), kind: FieldKind::Int32 });
        proof {
            reveal_strlit("data");
            reveal_strlit("resid");
            assert("data"@ =~= seq!['d', 'a', 't', 'a']);
            assert("resid"@ =~= seq!['r', 'e', 's', 'i', 'd']);
            assert(schema_view(r@) =~= Self::schema_spec());
        }
        r
    }

    fn to_vals(&self) -> (r: Vec<Option<FieldValue>>)
        ensures
            vals_view(r@) == self.fields_spec(),
    {
        let mut r: Vec<Option<FieldValue>> = Vec::new();
        r.push(match &self.data {
            Some(s) => Some(FieldValue::Text(s.clone())),
            None => None,
        });
        r.push(match &self.resid {
            Some(v) => Some(FieldValue::Int(*v as i64)),
            None => None,
        });
        proof {
            assert(vals_view(r@) =~= self.fields_spec());
        }
        r
    }

    fn from_vals(vals: &Vec<Option<FieldValue>>) -> (r: Json)
        requires
            wf_vals(Self::schema_spec(), vals_view(vals@)),
        ensures
            r.fields_spec() == vals_view(vals@),
    {
        let r = Json {
            data: match &vals[0] {
                Some(FieldValue::Text(s)) => Some(s.clone()),
                _ => None,
            },
            resid: match &vals[1] {
                Some(FieldValue::Int(n)) => Some(#[verifier::truncate] (*n as i32)),
                _ => None,
            },
        };
        proof {
            assert(r.fields_spec() =~= vals_view(vals@));
        }
        r
    }
}

impl CQCode for Json {
    fn to_string(&self) -> (r: String)
        ensures
            r@ == encode_inline_spec(Json::tag_spec(), Json::schema_spec(), self.fields_spec()),
    {
        let d = Json::decls();
        let v = self.to_vals();
        proof {
            reveal_strlit("json");
            assert("json"@ =~= Json::tag_spec());
            assert(schema_view(d@).len() == d@.len());
            assert(vals_view(v@).len() == v@.len());
        }
        encode_inline("json", &d, &v)
    }

    fn from_string(s: String) -> (r: Result<Json, SegmentError>)
        ensures
            match r {
                Ok(x) => decode_inline_spec(Json::tag_spec(), Json::schema_spec(), s@)
                    == Ok::<_, SegErr>(x.fields_spec()),
                Err(e) => decode_inline_spec(Json::tag_spec(), Json::schema_spec(), s@)
                    == Err::<Seq<Option<FieldVal>>, _>(e@),
            },
    {
        let chars = str_chars(s.as_str());
        let d = Json::decls();
        proof {
            reveal_strlit("json");
            assert("json"@ =~= Json::tag_spec());
        }
        match decode_inline("json", &d, &chars) {
            Ok(vals) => {
                proof {
                    let schema = Json::schema_spec();
                    let pairs = pairs_from(s@, word_run_end(s@, 4));
                    let acc = none_fields(schema.len() as int);
                    assert(apply_pairs(schema, pairs, acc) == Ok::<_, SegErr>(vals_view(vals@)));
                    lemma_apply_pairs_len(schema, pairs, acc);
                    lemma_apply_pairs_fits(schema, pairs, acc);
                }
                Ok(Json::from_vals(&vals))
            }
            Err(e) => Err(e),
        }
    }

    fn to_json(&self) -> (r: Result<String, SegmentError>)
        ensures
            r matches Ok(t) && t@ == encode_json_spec(
                Json::tag_spec(),
                Json::schema_spec(),
                self.fields_spec(),
            ),
    {
        let d = Json::decls();
        let v = self.to_vals();
        proof {
            reveal_strlit("json");
            assert("json"@ =~= Json::tag_spec());
            assert(schema_view(d@).len() == d@.len());
            assert(vals_view(v@).len() == v@.len());
        }
        Ok(encode_json("json", &d, &v))
    }

    fn from_json(s: &str) -> (r: Result<Json, SegmentError>)
        ensures
            match r {
                Ok(x) => decode_json_spec(Json::tag_spec(), Json::schema_spec(), s@)
                    == Ok::<_, SegErr>(x.fields_spec()),
                Err(e) => decode_json_spec(Json::tag_spec(), Json::schema_spec(), s@)
                    == Err::<Seq<Option<FieldVal>>, _>(e@),
            },
    {
        let chars = str_chars(s);
        let d = Json::decls();
        proof {
            reveal_strlit("json");
            assert("json"@ =~= Json::tag_spec());
        }
        match decode_json("json", &d, &chars) {
            Ok(vals) => {
                proof {
                    let schema = Json::schema_spec();
                    let acc = none_fields(schema.len() as int);
                    match parse_json_text(s@) {
                        Some(JsonV::Obj(fs)) => {
                            match obj_get(fs, data_key()) {
                                Some(JsonV::Obj(dfs)) => {
                                    assert(apply_jmembers(schema, dfs, acc)
                                        == Ok::<_, SegErr>(vals_view(vals@)));
                                    lemma_apply_jmembers_len(schema, dfs, acc);
                                    lemma_apply_jmembers_fits(schema, dfs, acc);
                                }
                                _ => {}
                            }
                        }
                        _ => {}
                    }
                }
                Ok(Json::from_vals(&vals))
            }
            Err(e) => Err(e),
        }
    }
}

/// Round trip: decoding the encoded form of a representable instance
/// of this shape gives its fields back, in both notations.
#[verifier::rlimit(30)]
pub proof fn lemma_json_round_trip(x: Json)
    requires
        inline_representable(x.fields_spec()),
    ensures
        decode_inline_spec(
            Json::tag_spec(),
            Json::schema_spec(),
            encode_inline_spec(Json::tag_spec(), Json::schema_spec(), x.fields_spec()),
        ) == Ok::<_, SegErr>(x.fields_spec()),
        decode_json_spec(
            Json::tag_spec(),
            Json::schema_spec(),
            encode_json_spec(Json::tag_spec(), Json::schema_spec(), x.fields_spec()),
        ) == Ok::<_, SegErr>(x.fields_spec()),
{
    assert(crate::text::lower_chars(Json::tag_spec()) =~= Json::tag_spec());
    assert(wf_tag(Json::tag_spec()));
    assert(wf_schema(Json::schema_spec())) by {
        let sch = Json::schema_spec();
        assert(sch[0].0.len() != sch[1].0.len());
    }
    assert(wf_vals(Json::schema_spec(), x.fields_spec()));
    lemma_inline_round_trip(Json::tag_spec(), Json::schema_spec(), x.fields_spec());
    crate::message::cq_code::lemma_json_round_trip(Json::tag_spec(), Json::schema_spec(), x.fields_spec());
}

/// The JSON notation needs no side condition: even empty text
/// fields round-trip there.
#[verifier::rlimit(30)]
pub proof fn lemma_json_json_round_trip(x: Json)
    ensures
        decode_json_spec(
            Json::tag_spec(),
            Json::schema_spec(),
            encode_json_spec(Json::tag_spec(), Json::schema_spec(), x.fields_spec()),
        ) == Ok::<_, SegErr>(x.fields_spec()),
{
    assert(crate::text::lower_chars(Json::tag_spec()) =~= Json::tag_spec());
    assert(wf_tag(Json::tag_spec()));
    assert(wf_schema(Json::schema_spec())) by {
        let sch = Json::schema_spec();
        assert(sch[0].0.len() != sch[1].0.len());
    }
    assert(wf_vals(Json::schema_spec(), x.fields_spec()));
    crate::message::cq_code::lemma_json_round_trip(Json::tag_spec(), Json::schema_spec(), x.fields_spec());
}

/// A large image card.
#[derive(Debug)]
pub struct CardImage {
    pub file: Option<String>,
    pub minwidth: Option<i64>,
    pub minheight: Option<i64>,
    pub maxwidth: Option<i64>,
    pub maxheight: Option<i64>,
    pub source: Option<String>,
    pub icon: Option<String>,
}

impl CardImage {
    /// The shape's canonical tag.
    pub open spec fn tag_spec() -> Seq<char> {
        seq!['c', 'a', 'r', 'd', 'i', 'm', 'a', 'g', 'e']
    }

    /// The shape's schema: wire names and kinds, in declaration order.
    pub open spec fn schema_spec() -> Seq<(Seq<char>, FieldKind)> {
        seq![
            (seq!['f', 'i', 'l', 'e'], FieldKind::Text),
            (seq!['m', 'i', 'n', 'w', 'i', 'd', 't', 'h'], FieldKind::Int64),
            (seq!['m', 'i', 'n', 'h', 'e', 'i', 'g', 'h', 't'], FieldKind::Int64),
            (seq!['m', 'a', 'x', 'w', 'i', 'd', 't', 'h'], FieldKind::Int64),
            (seq!['m', 'a', 'x', 'h', 'e', 'i', 'g', 'h', 't'], FieldKind::Int64),
            (seq!['s', 'o', 'u', 'r', 'c', 'e'], FieldKind::Text),
            (seq!['i', 'c', 'o', 'n'], FieldKind::Text),
        ]
    }

    /// The instance's field values, parallel to the schema.
    pub open spec fn fields_spec(&self) -> Seq<Option<FieldVal>> {
        seq![
            match self.file { Some(s) => Some(FieldVal::Text(s@)), None => None },
            match self.minwidth { Some(v) => Some(FieldVal::Int(v as int)), None => None },
            match self.minheight { Some(v) => Some(FieldVal::Int(v as int)), None => None },
            match self.maxwidth { Some(v) => Some(FieldVal::Int(v as int)), None => None },
            match self.maxheight { Some(v) => Some(FieldVal::Int(v as int)), None => None },
            match self.source { Some(s) => Some(FieldVal::Text(s@)), None => None },
            match self.icon { Some(s) => Some(FieldVal::Text(s@)), None => None },
        ]
    }

    fn decls() -> (r: Vec<FieldDecl>)
        ensures
            schema_view(r@) == Self::schema_spec(),
    {
        let mut r: Vec<FieldDecl> = Vec::new();
        r.push(FieldDecl { name: "file".to_owned(), kind: FieldKind::Text });
        r.push(FieldDecl { name: "minwidth".to_owned(), kind: FieldKind::Int64 });
        r.push(FieldDecl { name: "minheight".to_owned(), kind: FieldKind::Int64 });
        r.push(FieldDecl { name: "maxwidth".to_owned(), kind: FieldKind::Int64 });
        r.push(FieldDecl { name: "maxheight".to_owned(), kind: FieldKind::Int64 });
        r.push(FieldDecl { name: "source".to_owned(), kind: FieldKind::Text });
        r.push(FieldDecl { name: "icon".to_owned(), kind: FieldKind::Text });
        proof {
            reveal_strlit("file");
            reveal_strlit("minwidth");
            reveal_strlit("minheight");
            reveal_strlit("maxwidth");
            reveal_strlit("maxheight");
            reveal_strlit("source");
            reveal_strlit("icon");
            assert("file"@ =~= seq!['f', 'i', 'l', 'e']);
            assert("minwidth"@ =~= seq!['m', 'i', 'n', 'w', 'i', 'd', 't', 'h']);
            assert("minheight"@ =~= seq!['m', 'i', 'n', 'h', 'e', 'i', 'g', 'h', 't']);
            assert("maxwidth"@ =~= seq!['m', 'a', 'x', 'w', 'i', 'd', 't', 'h']);
            assert("maxheight"@ =~= seq!['m', 'a', 'x', 'h', 'e', 'i', 'g', 'h', 't']);
            assert("source"@ =~= seq!['s', 'o', 'u', 'r', 'c', 'e']);
            assert("icon"@ =~= seq!['i', 'c', 'o', 'n']);
            assert(schema_view(r@) =~= Self::schema_spec());
        }
        r
    }

    fn to_vals(&self) -> (r: Vec<Option<FieldValue>>)
        ensures
            vals_view(r@) == self.fields_spec(),
    {
        let mut r: Vec<Option<FieldValue>> = Vec::new();
        r.push(match &self.file {
            Some(s) => Some(FieldValue::Text(s.clone())),
            None => None,
        });
        r.push(match &self.minwidth {
            Some(v) => Some(FieldValue::Int(*v as i64)),
            None => None,
        });
        r.push(match &self.minheight {
            Some(v) => Some(FieldValue::Int(*v as i64)),
            None => None,
        });
        r.push(match &self.maxwidth {
            Some(v) => Some(FieldValue::Int(*v as i64)),
            None => None,
        });
        r.push(match &self.maxheight {
            Some(v) => Some(FieldValue::Int(*v as i64)),
            None => None,
        });
        r.push(match &self.source {
            Some(s) => Some(FieldValue::Text(s.clone())),
            None => None,
        });
        r.push(match &self.icon {
            Some(s) => Some(FieldValue::Text(s.clone())),
            None => None,
        });
        proof {
            assert(vals_view(r@) =~= self.fields_spec());
        }
        r
    }

    fn from_vals(vals: &Vec<Option<FieldValue>>) -> (r: CardImage)
        requires
            wf_vals(Self::schema_spec(), vals_view(vals@)),
        ensures
            r.fields_spec() == vals_view(vals@),
    {
        let r = CardImage {
            file: match &vals[0] {
                Some(FieldValue::Text(s)) => Some(s.clone()),
                _ => None,
            },
            minwidth: match &vals[1] {
                Some(FieldValue::Int(n)) => Some(*n),
                _ => None,
            },
            minheight: match &vals[2] {
                Some(FieldValue::Int(n)) => Some(*n),
                _ => None,
            },
            maxwidth: match &vals[3] {
                Some(FieldValue::Int(n)) => Some(*n),
                _ => None,
            },
            maxheight: match &vals[4] {
                Some(FieldValue::Int(n)) => Some(*n),
                _ => None,
            },
            source: match &vals[5] {
                Some(FieldValue::Text(s)) => Some(s.clone()),
                _ => None,
            },
            icon: match &vals[6] {
                Some(FieldValue::Text(s)) => Some(s.clone()),
                _ => None,
            },
        };
        proof {
            assert(r.fields_spec() =~= vals_view(vals@));
        }
        r
    }
}

impl CQCode for CardImage {
    fn to_string(&self) -> (r: String)
        ensures
            r@ == encode_inline_spec(CardImage::tag_spec(), CardImage::schema_spec(), self.fields_spec()),
    {
        let d = CardImage::decls();
        let v = self.to_vals();
        proof {
            reveal_strlit("cardimage");
            assert("cardimage"@ =~= CardImage::tag_spec());
            assert(schema_view(d@).len() == d@.len());
            assert(vals_view(v@).len() == v@.len());
        }
        encode_inline("cardimage", &d, &v)
    }

    fn from_string(s: String) -> (r: Result<CardImage, SegmentError>)
        ensures
            match r {
                Ok(x) => decode_inline_spec(CardImage::tag_spec(), CardImage::schema_spec(), s@)
                    == Ok::<_, SegErr>(x.fields_spec()),
                Err(e) => decode_inline_spec(CardImage::tag_spec(), CardImage::schema_spec(), s@)
                    == Err::<Seq<Option<FieldVal>>, _>(e@),
            },
    {
        let chars = str_chars(s.as_str());
        let d = CardImage::decls();
        proof {
            reveal_strlit("cardimage");
            assert("cardimage"@ =~= CardImage::tag_spec());
        }
        match decode_inline("cardimage", &d, &chars) {
            Ok(vals) => {
                proof {
                    let schema = CardImage::schema_spec();
                    let pairs = pairs_from(s@, word_run_end(s@, 4));
                    let acc = none_fields(schema.len() as int);
                    assert(apply_pairs(schema, pairs, acc) == Ok::<_, SegErr>(vals_view(vals@)));
                    lemma_apply_pairs_len(schema, pairs, acc);
                    lemma_apply_pairs_fits(schema, pairs, acc);
                }
                Ok(CardImage::from_vals(&vals))
            }
            Err(e) => Err(e),
        }
    }

    fn to_json(&self) -> (r: Result<String, SegmentError>)
        ensures
            r matches Ok(t) && t@ == encode_json_spec(
                CardImage::tag_spec(),
                CardImage::schema_spec(),
                self.fields_spec(),
            ),
    {
        let d = CardImage::decls();
        let v = self.to_vals();
        proof {
            reveal_strlit("cardimage");
            assert("cardimage"@ =~= CardImage::tag_spec());
            assert(schema_view(d@).len() == d@.len());
            assert(vals_view(v@).len() == v@.len());
        }
        Ok(encode_json("cardimage", &d, &v))
    }

    fn from_json(s: &str) -> (r: Result<CardImage, SegmentError>)
        ensures
            match r {
                Ok(x) => decode_json_spec(CardImage::tag_spec(), CardImage::schema_spec(), s@)
                    == Ok::<_, SegErr>(x.fields_spec()),
                Err(e) => decode_json_spec(CardImage::tag_spec(), CardImage::schema_spec(), s@)
                    == Err::<Seq<Option<FieldVal>>, _>(e@),
            },
    {
        let chars = str_chars(s);
        let d = CardImage::decls();
        proof {
            reveal_strlit("cardimage");
            assert("cardimage"@ =~= CardImage::tag_spec());
        }
        match decode_json("cardimage", &d, &chars) {
            Ok(vals) => {
                proof {
                    let schema = CardImage::schema_spec();
                    let acc = none_fields(schema.len() as int);
                    match parse_json_text(s@) {
                        Some(JsonV::Obj(fs)) => {
                            match obj_get(fs, data_key()) {
                                Some(JsonV::Obj(dfs)) => {
                                    assert(apply_jmembers(schema, dfs, acc)
                                        == Ok::<_, SegErr>(vals_view(vals@)));
                                    lemma_apply_jmembers_len(schema, dfs, acc);
                                    lemma_apply_jmembers_fits(schema, dfs, acc);
                                }
                                _ => {}
                            }
                        }
                        _ => {}
                    }
                }
                Ok(CardImage::from_vals(&vals))
            }
            Err(e) => Err(e),
        }
    }
}

/// Round trip: decoding the encoded form of a representable instance
/// of this shape gives its fields back, in both notations.
#[verifier::rlimit(30)]
pub proof fn lemma_cardimage_round_trip(x: CardImage)
    requires
        inline_representable(x.fields_spec()),
    ensures
        decode_inline_spec(
            CardImage::tag_spec(),
            CardImage::schema_spec(),
            encode_inline_spec(CardImage::tag_spec(), CardImage::schema_spec(), x.fields_spec()),
        ) == Ok::<_, SegErr>(x.fields_spec()),
        decode_json_spec(
            CardImage::tag_spec(),
            CardImage::schema_spec(),
            encode_json_spec(CardImage::tag_spec(), CardImage::schema_spec(), x.fields_spec()),
        ) == Ok::<_, SegErr>(x.fields_spec()),
{
    assert(crate::text::lower_chars(CardImage::tag_spec()) =~= CardImage::tag_spec());
    assert(wf_tag(CardImage::tag_spec()));
    assert(wf_schema(CardImage::schema_spec())) by {
        let sch = CardImage::schema_spec();
        assert(sch[0].0.len() != sch[1].0.len());
        assert(sch[0].0.len() != sch[2].0.len());
        assert(sch[0].0.len() != sch[3].0.len());
        assert(sch[0].0.len() != sch[4].0.len());
        assert(sch[0].0.len() != sch[5].0.len());
        assert(sch[0].0[0] != sch[6].0[0]);
        assert(sch[1].0.len() != sch[2].0.len());
        assert(sch[1].0[1] != sch[3].0[1]);
        assert(sch[1].0.len() != sch[4].0.len());
        assert(sch[1].0.len() != sch[5].0.len());
        assert(sch[1].0.len() != sch[6].0.len());
        assert(sch[2].0.len() != sch[3].0.len());
        assert(sch[2].0[1] != sch[4].0[1]);
        assert(sch[2].0.len() != sch[5].0.len());
        assert(sch[2].0.len() != sch[6].0.len());
        assert(sch[3].0.len() != sch[4].0.len());
        assert(sch[3].0.len() != sch[5].0.len());
        assert(sch[3].0.len() != sch[6].0.len());
        assert(sch[4].0.len() != sch[5].0.len());
        assert(sch[4].0.len() != sch[6].0.len());
        assert(sch[5].0.len() != sch[6].0.len());
    }
    assert(wf_vals(CardImage::schema_spec(), x.fields_spec()));
    lemma_inline_round_trip(CardImage::tag_spec(), CardImage::schema_spec(), x.fields_spec());
    crate::message::cq_code::lemma_json_round_trip(CardImage::tag_spec(), CardImage::schema_spec(), x.fields_spec());
}

/// The JSON notation needs no side condition: even empty text
/// fields round-trip there.
#[verifier::rlimit(30)]
pub proof fn lemma_cardimage_json_round_trip(x: CardImage)
    ensures
        decode_json_spec(
            CardImage::tag_spec(),
            CardImage::schema_spec(),
            encode_json_spec(CardImage::tag_spec(), CardImage::schema_spec(), x.fields_spec()),
        ) == Ok::<_, SegErr>(x.fields_spec()),
{
    assert(crate::text::lower_chars(CardImage::tag_spec()) =~= CardImage::tag_spec());
    assert(wf_tag(CardImage::tag_spec()));
    assert(wf_schema(CardImage::schema_spec())) by {
        let sch = CardImage::schema_spec();
        assert(sch[0].0.len() != sch[1].0.len());
        assert(sch[0].0.len() != sch[2].0.len());
        assert(sch[0].0.len() != sch[3].0.len());
        assert(sch[0].0.len() != sch[4].0.len());
        assert(sch[0].0.len() != sch[5].0.len());
        assert(sch[0].0[0] != sch[6].0[0]);
        assert(sch[1].0.len() != sch[2].0.len());
        assert(sch[1].0[1] != sch[3].0[1]);
        assert(sch[1].0.len() != sch[4].0.len());
        assert(sch[1].0.len() != sch[5].0.len());
        assert(sch[1].0.len() != sch[6].0.len());
        assert(sch[2].0.len() != sch[3].0.len());
        assert(sch[2].0[1] != sch[4].0[1]);
        assert(sch[2].0.len() != sch[5].0.len());
        assert(sch[2].0.len() != sch[6].0.len());
        assert(sch[3].0.len() != sch[4].0.len());
        assert(sch[3].0.len() != sch[5].0.len());
        assert(sch[3].0.len() != sch[6].0.len());
        assert(sch[4].0.len() != sch[5].0.len());
        assert(sch[4].0.len() != sch[6].0.len());
        assert(sch[5].0.len() != sch[6].0.len());
    }
    assert(wf_vals(CardImage::schema_spec(), x.fields_spec()));
    crate::message::cq_code::lemma_json_round_trip(CardImage::tag_spec(), CardImage::schema_spec(), x.fields_spec());
}

/// Text to speech.
#[derive(Debug)]
pub struct Tts {
    pub text: Option<String>,
}

impl Tts {
    /// The shape's canonical tag.
    pub open spec fn tag_spec() -> Seq<char> {
        seq!['t', 't', 's']
    }

    /// The shape's schema: wire names and kinds, in declaration order.
    pub open spec fn schema_spec() -> Seq<(Seq<char>, FieldKind)> {
        seq![
            (seq!['t', 'e', 'x', 't'], FieldKind::Text),
        ]
    }

    /// The instance's field values, parallel to the schema.
    pub open spec fn fields_spec(&self) -> Seq<Option<FieldVal>> {
        seq![
            match self.text { Some(s) => Some(FieldVal::Text(s@)), None => None },
        ]
    }

    fn decls() -> (r: Vec<FieldDecl>)
        ensures
            schema_view(r@) == Self::schema_spec(),
    {
        let mut r: Vec<FieldDecl> = Vec::new();
        r.push(FieldDecl { name: "text".to_owned(), kind: FieldKind::Text });
        proof {
            reveal_strlit("text");
            assert("text"@ =~= seq!['t', 'e', 'x', 't']);
            assert(schema_view(r@) =~= Self::schema_spec());
        }
        r
    }

    fn to_vals(&self) -> (r: Vec<Option<FieldValue>>)
        ensures
            vals_view(r@) == self.fields_spec(),
    {
        let mut r: Vec<Option<FieldValue>> = Vec::new();
        r.push(match &self.text {
            Some(s) => Some(FieldValue::Text(s.clone())),
            None => None,
        });
        proof {
            assert(vals_view(r@) =~= self.fields_spec());
        }
        r
    }

    fn from_vals(vals: &Vec<Option<FieldValue>>) -> (r: Tts)
        requires
            wf_vals(Self::schema_spec(), vals_view(vals@)),
        ensures
            r.fields_spec() == vals_view(vals@),
    {
        let r = Tts {
            text: match &vals[0] {
                Some(FieldValue::Text(s)) => Some(s.clone()),
                _ => None,
            },
        };
        proof {
            assert(r.fields_spec() =~= vals_view(vals@));
        }
        r
    }
}

impl CQCode for Tts {
    fn to_string(&self) -> (r: String)
        ensures
            r@ == encode_inline_spec(Tts::tag_spec(), Tts::schema_spec(), self.fields_spec()),
    {
        let d = Tts::decls();
        let v = self.to_vals();
        proof {
            reveal_strlit("tts");
            assert("tts"@ =~= Tts::tag_spec());
            assert(schema_view(d@).len() == d@.len());
            assert(vals_view(v@).len() == v@.len());
        }
        encode_inline("tts", &d, &v)
    }

    fn from_string(s: String) -> (r: Result<Tts, SegmentError>)
        ensures
            match r {
                Ok(x) => decode_inline_spec(Tts::tag_spec(), Tts::schema_spec(), s@)
                    == Ok::<_, SegErr>(x.fields_spec()),
                Err(e) => decode_inline_spec(Tts::tag_spec(), Tts::schema_spec(), s@)
                    == Err::<Seq<Option<FieldVal>>, _>(e@),
            },
    {
        let chars = str_chars(s.as_str());
        let d = Tts::decls();
        proof {
            reveal_strlit("tts");
            assert("tts"@ =~= Tts::tag_spec());
        }
        match decode_inline("tts", &d, &chars) {
            Ok(vals) => {
                proof {
                    let schema = Tts::schema_spec();
                    let pairs = pairs_from(s@, word_run_end(s@, 4));
                    let acc = none_fields(schema.len() as int);
                    assert(apply_pairs(schema, pairs, acc) == Ok::<_, SegErr>(vals_view(vals@)));
                    lemma_apply_pairs_len(schema, pairs, acc);
                    lemma_apply_pairs_fits(schema, pairs, acc);
                }
                Ok(Tts::from_vals(&vals))
            }
            Err(e) => Err(e),
        }
    }

    fn to_json(&self) -> (r: Result<String, SegmentError>)
        ensures
            r matches Ok(t) && t@ == encode_json_spec(
                Tts::tag_spec(),
                Tts::schema_spec(),
                self.fields_spec(),
            ),
    {
        let d = Tts::decls();
        let v = self.to_vals();
        proof {
            reveal_strlit("tts");
            assert("tts"@ =~= Tts::tag_spec());
            assert(schema_view(d@).len() == d@.len());
            assert(vals_view(v@).len() == v@.len());
        }
        Ok(encode_json("tts", &d, &v))
    }

    fn from_json(s: &str) -> (r: Result<Tts, SegmentError>)
        ensures
            match r {
                Ok(x) => decode_json_spec(Tts::tag_spec(), Tts::schema_spec(), s@)
                    == Ok::<_, SegErr>(x.fields_spec()),
                Err(e) => decode_json_spec(Tts::tag_spec(), Tts::schema_spec(), s@)
                    == Err::<Seq<Option<FieldVal>>, _>(e@),
            },
    {
        let chars = str_chars(s);
        let d = Tts::decls();
        proof {
            reveal_strlit("tts");
            assert("tts"@ =~= Tts::tag_spec());
        }
        match decode_json("tts", &d, &chars) {
            Ok(vals) => {
                proof {
                    let schema = Tts::schema_spec();
                    let acc = none_fields(schema.len() as int);
                    match parse_json_text(s@) {
                        Some(JsonV::Obj(fs)) => {
                            match obj_get(fs, data_key()) {
                                Some(JsonV::Obj(dfs)) => {
                                    assert(apply_jmembers(schema, dfs, acc)
                                        == Ok::<_, SegErr>(vals_view(vals@)));
                                    lemma_apply_jmembers_len(schema, dfs, acc);
                                    lemma_apply_jmembers_fits(schema, dfs, acc);
                                }
                                _ => {}
                            }
                        }
                        _ => {}
                    }
                }
                Ok(Tts::from_vals(&vals))
            }
            Err(e) => Err(e),
        }
    }
}

/// Round trip: decoding the encoded form of a representable instance
/// of this shape gives its fields back, in both notations.
#[verifier::rlimit(30)]
pub proof fn lemma_tts_round_trip(x: Tts)
    requires
        inline_representable(x.fields_spec()),
    ensures
        decode_inline_spec(
            Tts::tag_spec(),
            Tts::schema_spec(),
            encode_inline_spec(Tts::tag_spec(), Tts::schema_spec(), x.fields_spec()),
        ) == Ok::<_, SegErr>(x.fields_spec()),
        decode_json_spec(
            Tts::tag_spec(),
            Tts::schema_spec(),
            encode_json_spec(Tts::tag_spec(), Tts::schema_spec(), x.fields_spec()),
        ) == Ok::<_, SegErr>(x.fields_spec()),
{
    assert(crate::text::lower_chars(Tts::tag_spec()) =~= Tts::tag_spec());
    assert(wf_tag(Tts::tag_spec()));
    assert(wf_schema(Tts::schema_spec()));
    assert(wf_vals(Tts::schema_spec(), x.fields_spec()));
    lemma_inline_round_trip(Tts::tag_spec(), Tts::schema_spec(), x.fields_spec());
    crate::message::cq_code::lemma_json_round_trip(Tts::tag_spec(), Tts::schema_spec(), x.fields_spec());
}

/// The JSON notation needs no side condition: even empty text
/// fields round-trip there.
#[verifier::rlimit(30)]
pub proof fn lemma_tts_json_round_trip(x: Tts)
    ensures
        decode_json_spec(
            Tts::tag_spec(),
            Tts::schema_spec(),
            encode_json_spec(Tts::tag_spec(), Tts::schema_spec(), x.fields_spec()),
        ) == Ok::<_, SegErr>(x.fields_spec()),
{
    assert(crate::text::lower_chars(Tts::tag_spec()) =~= Tts::tag_spec());
    assert(wf_tag(Tts::tag_spec()));
    assert(wf_schema(Tts::schema_spec()));
    assert(wf_vals(Tts::schema_spec(), x.fields_spec()));
    crate::message::cq_code::lemma_json_round_trip(Tts::tag_spec(), Tts::schema_spec(), x.fields_spec());
}

// ------------------------------------------------------------------
// ForwardNode: the one shape whose payload is a whole message
// ------------------------------------------------------------------

/// A forwarded-message node.  Its `content` and `seq` fields hold a
/// whole message each: in the inline notation the nested message's own
/// rendering is the (escaped) field value, in the JSON notation it is a
/// JSON array of tagged objects.
#[derive(Debug)]
pub struct Node {
    pub id: Option<i32>,
    pub name: Option<String>,
    pub uin: Option<i64>,
    pub content: Option<Message>,
    pub seq: Option<Message>,
}

impl Node {
    pub open spec fn tag_spec() -> Seq<char> {
        seq!['n', 'o', 'd', 'e']
    }

    /// At the inline codec's level the two message fields travel as
    /// text: the nested message's rendering.
    pub open spec fn schema_spec() -> Seq<(Seq<char>, FieldKind)> {
        seq![
            (seq!['i', 'd'], FieldKind::Int32),
            (seq!['n', 'a', 'm', 'e'], FieldKind::Text),
            (seq!['u', 'i', 'n'], FieldKind::Int64),
            (seq!['c', 'o', 'n', 't', 'e', 'n', 't'], FieldKind::Text),
            (seq!['s', 'e', 'q'], FieldKind::Text),
        ]
    }

    pub open spec fn fields_spec(&self) -> Seq<Option<FieldVal>> {
        seq![
            match self.id { Some(v) => Some(FieldVal::Int(v as int)), None => None },
            match self.name { Some(s) => Some(FieldVal::Text(s@)), None => None },
            match self.uin { Some(v) => Some(FieldVal::Int(v as int)), None => None },
            match self.content { Some(m) => Some(FieldVal::Text(render_msg(m.kind, m@))), None => None },
            match self.seq { Some(m) => Some(FieldVal::Text(render_msg(m.kind, m@))), None => None },
        ]
    }

    /// How a decoded field list describes a node: the two message
    /// fields are re-tokenized from their written text.
    pub open spec fn describes(f: Seq<Option<FieldVal>>, x: Node) -> bool {
        &&& match f[0] {
            Some(FieldVal::Int(n)) => x.id == Some(n as i32),
            _ => x.id is None,
        }
        &&& match f[1] {
            Some(FieldVal::Text(t)) => x.name matches Some(nm) && nm@ == t,
            _ => x.name is None,
        }
        &&& match f[2] {
            Some(FieldVal::Int(n)) => x.uin == Some(n as i64),
            _ => x.uin is None,
        }
        &&& match f[3] {
            Some(FieldVal::Text(t)) => x.content matches Some(m) && m@ == tokenize_spec(t)
                && m.kind == MessageType::String,
            _ => x.content is None,
        }
        &&& match f[4] {
            Some(FieldVal::Text(t)) => x.seq matches Some(m) && m@ == tokenize_spec(t)
                && m.kind == MessageType::String,
            _ => x.seq is None,
        }
    }

    fn decls() -> (r: Vec<FieldDecl>)
        ensures
            schema_view(r@) == Self::schema_spec(),
    {
        let mut r: Vec<FieldDecl> = Vec::new();
        r.push(FieldDecl { name: "id".to_owned(), kind: FieldKind::Int32 });
        r.push(FieldDecl { name: "name".to_owned(), kind: FieldKind::Text });
        r.push(FieldDecl { name: "uin".to_owned(), kind: FieldKind::Int64 });
        r.push(FieldDecl { name: "content".to_owned(), kind: FieldKind::Text });
        r.push(FieldDecl { name: "seq".to_owned(), kind: FieldKind::Text });
        proof {
            reveal_strlit("id");
            reveal_strlit("name");
            reveal_strlit("uin");
            reveal_strlit("content");
            reveal_strlit("seq");
            assert("id"@ =~= seq!['i', 'd']);
            assert("name"@ =~= seq!['n', 'a', 'm', 'e']);
            assert("uin"@ =~= seq!['u', 'i', 'n']);
            assert("content"@ =~= seq!['c', 'o', 'n', 't', 'e', 'n', 't']);
            assert("seq"@ =~= seq!['s', 'e', 'q']);
            assert(schema_view(r@) =~= Self::schema_spec());
        }
        r
    }

    fn to_vals(&self) -> (r: Vec<Option<FieldValue>>)
        ensures
            vals_view(r@) == self.fields_spec(),
    {
        let mut r: Vec<Option<FieldValue>> = Vec::new();
        r.push(match &self.id {
            Some(v) => Some(FieldValue::Int(*v as i64)),
            None => None,
        });
        r.push(match &self.name {
            Some(s) => Some(FieldValue::Text(s.clone())),
            None => None,
        });
        r.push(match &self.uin {
            Some(v) => Some(FieldValue::Int(*v)),
            None => None,
        });
        r.push(match &self.content {
            Some(m) => Some(FieldValue::Text(m.to_string())),
            None => None,
        });
        r.push(match &self.seq {
            Some(m) => Some(FieldValue::Text(m.to_string())),
            None => None,
        });
        proof {
            assert(vals_view(r@) =~= self.fields_spec());
        }
        r
    }
}

impl CQCode for Node {
    fn to_string(&self) -> (r: String)
        ensures
            r@ == encode_inline_spec(Node::tag_spec(), Node::schema_spec(), self.fields_spec()),
    {
        let d = Node::decls();
        let v = self.to_vals();
        proof {
            reveal_strlit("node");
            assert("node"@ =~= Node::tag_spec());
            assert(schema_view(d@).len() == d@.len());
            assert(vals_view(v@).len() == v@.len());
        }
        encode_inline("node", &d, &v)
    }

    fn from_string(s: String) -> (r: Result<Node, SegmentError>)
        ensures
            match r {
                Ok(x) => decode_inline_spec(Node::tag_spec(), Node::schema_spec(), s@) matches Ok(
                    f,
                ) && Node::describes(f, x),
                Err(e) => decode_inline_spec(Node::tag_spec(), Node::schema_spec(), s@) == Err::<
                    Seq<Option<FieldVal>>,
                    _,
                >(e@),
            },
    {
        let chars = str_chars(s.as_str());
        let d = Node::decls();
        proof {
            reveal_strlit("node");
            assert("node"@ =~= Node::tag_spec());
        }
        let vals = match decode_inline("node", &d, &chars) {
            Ok(vals) => vals,
            Err(e) => {
                return Err(e);
            }
        };
        proof {
            let schema = Node::schema_spec();
            let pairs = pairs_from(s@, word_run_end(s@, 4));
            let acc = none_fields(schema.len() as int);
            assert(apply_pairs(schema, pairs, acc) == Ok::<_, SegErr>(vals_view(vals@)));
            lemma_apply_pairs_len(schema, pairs, acc);
            lemma_apply_pairs_fits(schema, pairs, acc);
        }
        let content = match &vals[3] {
            Some(FieldValue::Text(t)) => match Message::from_string(t.clone()) {
                Ok(m) => Some(m),
                Err(_) => None,
            },
            _ => None,
        };
        let seq_msg = match &vals[4] {
            Some(FieldValue::Text(t)) => match Message::from_string(t.clone()) {
                Ok(m) => Some(m),
                Err(_) => None,
            },
            _ => None,
        };
        let x = Node {
            id: match &vals[0] {
                Some(FieldValue::Int(n)) => Some(#[verifier::truncate] (*n as i32)),
                _ => None,
            },
            name: match &vals[1] {
                Some(FieldValue::Text(t)) => Some(t.clone()),
                _ => None,
            },
            uin: match &vals[2] {
                Some(FieldValue::Int(n)) => Some(*n),
                _ => None,
            },
            content,
            seq: seq_msg,
        };
        proof {
            assert(Node::describes(vals_view(vals@), x));
        }
        Ok(x)
    }

    #[verifier::rlimit(60)]
    fn to_json(&self) -> (r: Result<String, SegmentError>)
        ensures
            r matches Ok(t) && t@ == node_json_text(*self),
    {
        let mut out: Vec<char> = Vec::new();
        let head = str_chars("{\"type\":\"node\",\"data\":{");
        proof {
            reveal_strlit("{\"type\":\"node\",\"data\":{");
        }
        push_all(&mut out, &head);
        let mut members: Vec<Vec<char>> = Vec::new();
        let ghost mvs = node_json_members(*self);
        if let Some(v) = &self.id {
            let lead = str_chars("\"id\":");
            proof {
                reveal_strlit("\"id\":");
            }
            let mut m = lead;
            push_dec_i64(*v as i64, &mut m);
            members.push(m);
        }
        if let Some(nm) = &self.name {
            let lead = str_chars("\"name\":");
            proof {
                reveal_strlit("\"name\":");
            }
            let mut m = lead;
            let lit = json_string_chars(nm.as_str());
            push_all(&mut m, &lit);
            members.push(m);
        }
        if let Some(v) = &self.uin {
            let lead = str_chars("\"uin\":");
            proof {
                reveal_strlit("\"uin\":");
            }
            let mut m = lead;
            push_dec_i64(*v, &mut m);
            members.push(m);
        }
        if let Some(msg) = &self.content {
            let lead = str_chars("\"content\":[");
            proof {
                reveal_strlit("\"content\":[");
            }
            let mut m = lead;
            push_joined(&mut m, &msg.messages);
            m.push(']');
            proof {
                assert(m@ =~= "\"content\":["@ + join_comma(msg@) + seq![']']);
            }
            members.push(m);
        }
        if let Some(msg) = &self.seq {
            let lead = str_chars("\"seq\":[");
            proof {
                reveal_strlit("\"seq\":[");
            }
            let mut m = lead;
            push_joined(&mut m, &msg.messages);
            m.push(']');
            proof {
                assert(m@ =~= "\"seq\":["@ + join_comma(msg@) + seq![']']);
            }
            members.push(m);
        }
        proof {
            assert(vecs_view(members@) =~= mvs);
        }
        let ghost mid = out@;
        let mut k: usize = 0;
        while k < members.len()
            invariant
                k <= members@.len(),
                vecs_view(members@) == mvs,
                k == 0 ==> out@ == mid,
                k > 0 ==> out@ == mid + join_comma(mvs.take(k as int)),
            decreases members@.len() - k,
        {
            if k > 0 {
                out.push(',');
            }
            push_all(&mut out, &members[k]);
            proof {
                assert(members@[k as int]@ == mvs[k as int]);
                assert(mvs.take(k + 1) =~= mvs.take(k as int).push(mvs[k as int]));
                if k == 0 {
                    assert(join_comma(mvs.take(1)) == mvs[0]);
                } else {
                    lemma_join_push(mvs.take(k as int), mvs[k as int]);
                }
            }
            k = k + 1;
        }
        proof {
            if mvs.len() > 0 {
                assert(mvs.take(mvs.len() as int) =~= mvs);
            } else {
                assert(join_comma(mvs) == Seq::<char>::empty());
            }
        }
        out.push('}');
        out.push('}');
        proof {
            assert(out@ =~= node_json_text(*self));
        }
        Ok(string_of_chars(&out))
    }

    fn from_json(s: &str) -> (r: Result<Node, SegmentError>)
        ensures
            match r {
                Ok(x) => node_decode_json_spec(s@) matches Ok(f) && node_json_describes(f, x)
                    && (x.content matches Some(m) ==> m.kind == MessageType::Json) && (
                x.seq matches Some(m) ==> m.kind == MessageType::Json),
                Err(e) => node_decode_json_spec(s@) == Err::<Seq<Option<NodeVal>>, _>(e@),
            },
    {
        let chars = str_chars(s);
        let parsed = match crate::json::parse_json_chars(&chars) {
            Some(v) => v,
            None => {
                return Err(SegmentError::MalformedSegment { raw: s.to_owned() });
            }
        };
        let fs = match parsed {
            JsonValue::Obj(fs) => fs,
            _ => {
                return Err(SegmentError::MalformedSegment { raw: s.to_owned() });
            }
        };
        proof {
            assert(jv_of(parsed) == JsonV::Obj(obj_of(fs@, 0)));
        }
        let tkey = str_chars("type");
        proof {
            reveal_strlit("type");
            assert("type"@ =~= type_key());
        }
        let ti = match obj_find(&fs, &tkey) {
            Some(i) => i,
            None => {
                return Err(SegmentError::MalformedSegment { raw: s.to_owned() });
            }
        };
        let t = match &fs[ti].value {
            JsonValue::Str(t) => t.clone(),
            _ => {
                return Err(SegmentError::MalformedSegment { raw: s.to_owned() });
            }
        };
        let tv = str_chars(t.as_str());
        let lowered = to_lower_chars(&tv);
        let expected = str_chars("node");
        proof {
            reveal_strlit("node");
            assert("node"@ =~= Node::tag_spec());
        }
        if !chars_eq(&lowered, &expected) {
            return Err(SegmentError::TagMismatch {
                expected: "node".to_owned(),
                found: string_of_chars(&lowered),
            });
        }
        let dkey = str_chars("data");
        proof {
            reveal_strlit("data");
            assert("data"@ =~= data_key());
        }
        let di = match obj_find(&fs, &dkey) {
            Some(i) => i,
            None => {
                return Err(SegmentError::MalformedSegment { raw: s.to_owned() });
            }
        };
        let dfs = match &fs[di].value {
            JsonValue::Obj(dfs) => dfs,
            _ => {
                return Err(SegmentError::MalformedSegment { raw: s.to_owned() });
            }
        };
        proof {
            assert(jv_of(fs@[di as int].value) == JsonV::Obj(obj_of(dfs@, 0)));
        }
        let mut vals: Vec<Option<NodeValue>> = Vec::new();
        let mut i: usize = 0;
        while i < 5
            invariant
                i <= 5,
                vals@.len() == i,
                forall|t: int| 0 <= t < i ==> vals@[t] is None,
            decreases 5 - i,
        {
            vals.push(None);
            i = i + 1;
        }
        let ghost all_m = obj_of(dfs@, 0);
        let ghost target = apply_node_members(all_m, node_none_fields());
        proof {
            lemma_obj_of(dfs@, 0);
            assert(node_vals_view(vals@) =~= node_none_fields());
            assert(all_m.skip(0) =~= all_m);
            assert(node_decode_json_spec(s@) == target);
        }
        let mut p: usize = 0;
        while p < dfs.len()
            invariant
                p <= dfs@.len(),
                all_m == obj_of(dfs@, 0),
                all_m.len() == dfs@.len(),
                forall|u: int| 0 <= u < dfs@.len() ==> #[trigger] all_m[u] == (
                    dfs@[u].key@,
                    jv_of(dfs@[u].value),
                ),
                vals@.len() == 5,
                forall|t: int| 0 <= t < 5 ==> (#[trigger] vals@[t] matches Some(
                    NodeValue::Body(m),
                ) ==> m.kind == MessageType::Json),
                target == apply_node_members(all_m.skip(p as int), node_vals_view(vals@)),
                target == node_decode_json_spec(s@),
            decreases dfs@.len() - p,
        {
            let ghost rest = all_m.skip(p as int);
            proof {
                assert(rest[0] == all_m[p as int]);
                assert(rest.skip(1) =~= all_m.skip(p + 1));
            }
            let nm = str_chars(dfs[p].key.as_str());
            let idx = match node_member_index(&nm) {
                Some(idx) => idx,
                None => {
                    return Err(SegmentError::UnknownField { field: string_of_chars(&nm) });
                }
            };
            let fv = match node_member_value(idx, &dfs[p].value) {
                Some(fv) => fv,
                None => {
                    return Err(SegmentError::FieldTypeError {
                        field: string_of_chars(&nm),
                        value: crate::json::json_value_text(&dfs[p].value),
                    });
                }
            };
            let ghost before = node_vals_view(vals@);
            vals.set(idx, Some(fv));
            proof {
                assert(node_vals_view(vals@) =~= before.update(idx as int, Some(node_val_view(fv))));
            }
            p = p + 1;
        }
        proof {
            assert(all_m.skip(all_m.len() as int) =~= Seq::<(Seq<char>, JsonV)>::empty());
            assert(target == Ok::<_, SegErr>(node_vals_view(vals@)));
        }
        let ghost gf = node_vals_view(vals@);
        let mut it = vals;
        let e0 = it.remove(0);
        let e1 = it.remove(0);
        let e2 = it.remove(0);
        let e3 = it.remove(0);
        let e4 = it.remove(0);
        let x = Node {
            id: match &e0 {
                Some(NodeValue::Int(n)) => Some(#[verifier::truncate] (*n as i32)),
                _ => None,
            },
            name: match &e1 {
                Some(NodeValue::Text(t)) => Some(t.clone()),
                _ => None,
            },
            uin: match &e2 {
                Some(NodeValue::Int(n)) => Some(*n),
                _ => None,
            },
            content: match e3 {
                Some(NodeValue::Body(m)) => Some(m),
                _ => None,
            },
            seq: match e4 {
                Some(NodeValue::Body(m)) => Some(m),
                _ => None,
            },
        };
        proof {
            assert(node_json_describes(gf, x));
        }
        Ok(x)
    }
}

/// A decoded node field: an integer, a text, or a whole message body.
#[derive(Debug)]
pub enum NodeValue {
    Int(i64),
    Text(String),
    Body(Message),
}

/// The mathematical shadow of `NodeValue`.
pub enum NodeVal {
    Int(int),
    Text(Seq<char>),
    Body(Seq<Seq<char>>),
}

pub open spec fn node_val_view(v: NodeValue) -> NodeVal {
    match v {
        NodeValue::Int(n) => NodeVal::Int(n as int),
        NodeValue::Text(s) => NodeVal::Text(s@),
        NodeValue::Body(m) => NodeVal::Body(m@),
    }
}

pub open spec fn node_vals_view(vs: Seq<Option<NodeValue>>) -> Seq<Option<NodeVal>> {
    Seq::new(
        vs.len(),
        |i: int| match vs[i] {
            Some(v) => Some(node_val_view(v)),
            None => None,
        },
    )
}

pub open spec fn node_none_fields() -> Seq<Option<NodeVal>> {
    Seq::new(5, |i: int| None)
}

/// The slot a wire name of the node's `data` object fills, if any.
pub open spec fn node_member_slot(nm: Seq<char>) -> int {
    if nm == seq!['i', 'd'] {
        0
    } else if nm == seq!['n', 'a', 'm', 'e'] {
        1
    } else if nm == seq!['u', 'i', 'n'] {
        2
    } else if nm == seq!['c', 'o', 'n', 't', 'e', 'n', 't'] {
        3
    } else if nm == seq!['s', 'e', 'q'] {
        4
    } else {
        -1
    }
}

/// Typed decoding of one node member: the two message slots take a JSON
/// array whose elements become the message's tokens, re-printed in
/// compact form.
pub open spec fn node_member_val(slot: int, v: JsonV) -> Option<NodeVal> {
    if slot == 0 || slot == 2 {
        match v {
            JsonV::Num(lex) => match crate::text::parse_sint_in(
                lex,
                if slot == 0 {
                    -0x8000_0000
                } else {
                    -0x8000_0000_0000_0000
                },
                if slot == 0 {
                    0x7fff_ffff
                } else {
                    0x7fff_ffff_ffff_ffff
                },
            ) {
                Some(n) => Some(NodeVal::Int(n)),
                None => None,
            },
            _ => None,
        }
    } else if slot == 1 {
        match v {
            JsonV::Str(t) => Some(NodeVal::Text(t)),
            _ => None,
        }
    } else {
        match v {
            JsonV::Arr(items) => Some(NodeVal::Body(printed_items(items, 0))),
            _ => None,
        }
    }
}

/// The compact texts of the array's elements, from `k` on.
pub open spec fn printed_items(items: Seq<JsonV>, k: int) -> Seq<Seq<char>>
    decreases items.len() - k when 0 <= k
{
    if k >= items.len() {
        Seq::empty()
    } else {
        seq![print_jv(items[k])] + printed_items(items, k + 1)
    }
}

/// Folds the members of a node's `data` object over the all-absent
/// node.
pub open spec fn apply_node_members(
    dfs: Seq<(Seq<char>, JsonV)>,
    acc: Seq<Option<NodeVal>>,
) -> Result<Seq<Option<NodeVal>>, SegErr>
    decreases dfs.len(),
{
    if dfs.len() == 0 {
        Ok(acc)
    } else {
        let nm = dfs[0].0;
        let slot = node_member_slot(nm);
        if slot < 0 {
            Err(SegErr::UnknownField { field: nm })
        } else {
            match node_member_val(slot, dfs[0].1) {
                Some(v) => apply_node_members(dfs.skip(1), acc.update(slot, Some(v))),
                None => Err(SegErr::FieldTypeError { field: nm, value: print_jv(dfs[0].1) }),
            }
        }
    }
}

/// What decoding the JSON notation of a node returns, for every input.
pub open spec fn node_decode_json_spec(s: Seq<char>) -> Result<Seq<Option<NodeVal>>, SegErr> {
    match parse_json_text(s) {
        None => Err(SegErr::MalformedSegment { raw: s }),
        Some(v) => match v {
            JsonV::Obj(fs) => match obj_get(fs, type_key()) {
                Some(JsonV::Str(t)) => if crate::text::lower_chars(t) != Node::tag_spec() {
                    Err(
                        SegErr::TagMismatch {
                            expected: Node::tag_spec(),
                            found: crate::text::lower_chars(t),
                        },
                    )
                } else {
                    match obj_get(fs, data_key()) {
                        Some(JsonV::Obj(dfs)) => apply_node_members(dfs, node_none_fields()),
                        _ => Err(SegErr::MalformedSegment { raw: s }),
                    }
                },
                _ => Err(SegErr::MalformedSegment { raw: s }),
            },
            _ => Err(SegErr::MalformedSegment { raw: s }),
        },
    }
}

/// How a decoded node field list describes a node value.
pub open spec fn node_json_describes(f: Seq<Option<NodeVal>>, x: Node) -> bool {
    &&& match f[0] {
        Some(NodeVal::Int(n)) => x.id == Some(n as i32),
        _ => x.id is None,
    }
    &&& match f[1] {
        Some(NodeVal::Text(t)) => x.name matches Some(nm) && nm@ == t,
        _ => x.name is None,
    }
    &&& match f[2] {
        Some(NodeVal::Int(n)) => x.uin == Some(n as i64),
        _ => x.uin is None,
    }
    &&& match f[3] {
        Some(NodeVal::Body(b)) => x.content matches Some(m) && m@ == b,
        _ => x.content is None,
    }
    &&& match f[4] {
        Some(NodeVal::Body(b)) => x.seq matches Some(m) && m@ == b,
        _ => x.seq is None,
    }
}

/// Which slot a written member name fills.
fn node_member_index(nm: &Vec<char>) -> (r: Option<usize>)
    ensures
        match r {
            Some(i) => node_member_slot(nm@) == i as int && i < 5,
            None => node_member_slot(nm@) == -1,
        },
{
    let id_k = str_chars("id");
    let name_k = str_chars("name");
    let uin_k = str_chars("uin");
    let content_k = str_chars("content");
    let seq_k = str_chars("seq");
    proof {
        reveal_strlit("id");
        reveal_strlit("name");
        reveal_strlit("uin");
        reveal_strlit("content");
        reveal_strlit("seq");
        assert("id"@ =~= seq!['i', 'd']);
        assert("name"@ =~= seq!['n', 'a', 'm', 'e']);
        assert("uin"@ =~= seq!['u', 'i', 'n']);
        assert("content"@ =~= seq!['c', 'o', 'n', 't', 'e', 'n', 't']);
        assert("seq"@ =~= seq!['s', 'e', 'q']);
    }
    if chars_eq(nm, &id_k) {
        Some(0)
    } else if chars_eq(nm, &name_k) {
        Some(1)
    } else if chars_eq(nm, &uin_k) {
        Some(2)
    } else if chars_eq(nm, &content_k) {
        Some(3)
    } else if chars_eq(nm, &seq_k) {
        Some(4)
    } else {
        None
    }
}

/// Typed decoding of one node member, as `node_member_val` states it.
fn node_member_value(slot: usize, v: &JsonValue) -> (r: Option<NodeValue>)
    requires
        slot < 5,
    ensures
        match r {
            Some(fv) => node_member_val(slot as int, jv_of(*v)) == Some(node_val_view(fv)),
            None => node_member_val(slot as int, jv_of(*v)) is None,
        },
        r matches Some(NodeValue::Body(m)) ==> m.kind == MessageType::Json,
{
    if slot == 0 || slot == 2 {
        match v {
            JsonValue::Num(lex) => {
                let lv = str_chars(lex.as_str());
                let lo: i64 = if slot == 0 {
                    -0x8000_0000
                } else {
                    -0x8000_0000_0000_0000
                };
                let hi: i64 = if slot == 0 {
                    0x7fff_ffff
                } else {
                    0x7fff_ffff_ffff_ffff
                };
                match crate::text::parse_dec_in(&lv, lo, hi) {
                    Some(n) => Some(NodeValue::Int(n)),
                    None => None,
                }
            }
            _ => None,
        }
    } else if slot == 1 {
        match v {
            JsonValue::Str(t) => Some(NodeValue::Text(t.clone())),
            _ => None,
        }
    } else {
        match v {
            JsonValue::Arr(items) => {
                let mut toks: Vec<String> = Vec::new();
                let mut k: usize = 0;
                let ghost iv = arr_of(items@, 0);
                proof {
                    lemma_arr_of(items@, 0);
                }
                while k < items.len()
                    invariant
                        k <= items@.len(),
                        iv == arr_of(items@, 0),
                        iv.len() == items@.len(),
                        forall|u: int| 0 <= u < items@.len() ==> #[trigger] iv[u] == jv_of(
                            items@[u],
                        ),
                        crate::message::strs_view(toks@) =~= printed_items(iv, 0).take(k as int),
                    decreases items@.len() - k,
                {
                    let ghost before = crate::message::strs_view(toks@);
                    toks.push(crate::json::json_value_text(&items[k]));
                    proof {
                        lemma_printed_items(iv, 0);
                        assert(crate::message::strs_view(toks@) =~= before.push(
                            print_jv(iv[k as int]),
                        ));
                        assert(printed_items(iv, 0).take(k + 1) =~= printed_items(iv, 0).take(
                            k as int,
                        ).push(printed_items(iv, 0)[k as int]));
                    }
                    k = k + 1;
                }
                proof {
                    lemma_printed_items(iv, 0);
                    assert(printed_items(iv, 0).take(iv.len() as int) =~= printed_items(iv, 0));
                }
                Some(NodeValue::Body(Message { messages: toks, kind: MessageType::Json }))
            }
            _ => None,
        }
    }
}

proof fn lemma_printed_items(items: Seq<JsonV>, k: int)
    requires
        0 <= k <= items.len(),
    ensures
        printed_items(items, k).len() == items.len() - k,
        forall|i: int| 0 <= i < items.len() - k ==> #[trigger] printed_items(items, k)[i]
            == print_jv(items[k + i]),
    decreases items.len() - k,
{
    if k < items.len() {
        lemma_printed_items(items, k + 1);
        assert forall|i: int| 0 <= i < items.len() - k implies #[trigger] printed_items(
            items,
            k,
        )[i] == print_jv(items[k + i]) by {
            if i > 0 {
                assert(printed_items(items, k)[i] == printed_items(items, k + 1)[i - 1]);
            }
        }
    }
}

/// The character sequences of a vector of character vectors.
pub open spec fn vecs_view(v: Seq<Vec<char>>) -> Seq<Seq<char>> {
    Seq::new(v.len(), |i: int| v[i]@)
}

/// One written member of the node's `data` object per present field, in
/// declaration order.
pub open spec fn node_json_members(x: Node) -> Seq<Seq<char>> {
    (match x.id {
        Some(v) => seq!["\"id\":"@ + crate::text::int_dec_chars(v as int)],
        None => Seq::<Seq<char>>::empty(),
    }) + (match x.name {
        Some(nm) => seq!["\"name\":"@ + crate::json::print_string(nm@)],
        None => Seq::<Seq<char>>::empty(),
    }) + (match x.uin {
        Some(v) => seq!["\"uin\":"@ + crate::text::int_dec_chars(v as int)],
        None => Seq::<Seq<char>>::empty(),
    }) + (match x.content {
        Some(m) => seq!["\"content\":["@ + join_comma(m@) + seq![']']],
        None => Seq::<Seq<char>>::empty(),
    }) + (match x.seq {
        Some(m) => seq!["\"seq\":["@ + join_comma(m@) + seq![']']],
        None => Seq::<Seq<char>>::empty(),
    })
}

/// The JSON notation of a node: the members of `data` joined with
/// commas inside the tagged wrapper.
pub open spec fn node_json_text(x: Node) -> Seq<char> {
    "{\"type\":\"node\",\"data\":{"@ + join_comma(node_json_members(x)) + seq!['}', '}']
}

/// A quoted, escaped JSON string literal.
fn json_string_chars(s: &str) -> (r: Vec<char>)
    ensures
        r@ == crate::json::print_string(s@),
{
    let mut out: Vec<char> = Vec::new();
    let tmp = crate::json::json_string_text(s);
    let v = str_chars(tmp.as_str());
    push_all(&mut out, &v);
    proof {
        assert(out@ =~= crate::json::print_string(s@));
    }
    out
}

/// Appends the message's tokens joined with commas.
fn push_joined(out: &mut Vec<char>, msgs: &Vec<String>)
    ensures
        final(out)@ == old(out)@ + join_comma(crate::message::strs_view(msgs@)),
{
    let ghost mv = crate::message::strs_view(msgs@);
    let ghost head = out@;
    let mut k: usize = 0;
    while k < msgs.len()
        invariant
            k <= msgs@.len(),
            mv == crate::message::strs_view(msgs@),
            k == 0 ==> out@ == head,
            k > 0 ==> out@ == head + join_comma(mv.take(k as int)),
        decreases msgs@.len() - k,
    {
        if k > 0 {
            out.push(',');
        }
        let piece = str_chars(msgs[k].as_str());
        push_all(out, &piece);
        proof {
            assert(mv.take(k + 1) =~= mv.take(k as int).push(mv[k as int]));
            if k == 0 {
                assert(join_comma(mv.take(1)) == mv[0]);
            } else {
                lemma_join_push(mv.take(k as int), mv[k as int]);
            }
        }
        k = k + 1;
    }
    proof {
        if mv.len() > 0 {
            assert(mv.take(mv.len() as int) =~= mv);
        } else {
            assert(join_comma(mv) == Seq::<char>::empty());
        }
    }
}

/// Round trip of the inline notation for forward nodes: decoding an
/// encoded node recovers its written fields, and each nested message,
/// being in canonical inline form, re-tokenizes to exactly its own
/// tokens.  A nested message whose rendering is empty has no inline
/// form, since the grammar has no empty field values.
pub proof fn lemma_node_round_trip(x: Node)
    requires
        x.name matches Some(s) ==> s@.len() > 0,
        x.content matches Some(m) ==> crate::message::msg_inline_canonical(m) && render_msg(
            m.kind,
            m@,
        ).len() > 0,
        x.seq matches Some(m) ==> crate::message::msg_inline_canonical(m) && render_msg(
            m.kind,
            m@,
        ).len() > 0,
    ensures
        decode_inline_spec(
            Node::tag_spec(),
            Node::schema_spec(),
            encode_inline_spec(Node::tag_spec(), Node::schema_spec(), x.fields_spec()),
        ) == Ok::<_, SegErr>(x.fields_spec()),
        Node::describes(x.fields_spec(), x),
{
    assert(crate::text::lower_chars(Node::tag_spec()) =~= Node::tag_spec());
    assert(wf_tag(Node::tag_spec()));
    assert(wf_schema(Node::schema_spec())) by {
        let sch = Node::schema_spec();
        assert(sch[0].0.len() != sch[1].0.len());
        assert(sch[0].0.len() != sch[2].0.len());
        assert(sch[0].0.len() != sch[3].0.len());
        assert(sch[0].0[0] != sch[4].0[0]);
        assert(sch[1].0.len() != sch[2].0.len());
        assert(sch[1].0.len() != sch[3].0.len());
        assert(sch[1].0.len() != sch[4].0.len());
        assert(sch[2].0.len() != sch[3].0.len());
        assert(sch[2].0[0] != sch[4].0[0]);
        assert(sch[3].0.len() != sch[4].0.len());
    }
    assert(wf_vals(Node::schema_spec(), x.fields_spec()));
    assert(inline_representable(x.fields_spec()));
    lemma_inline_round_trip(Node::tag_spec(), Node::schema_spec(), x.fields_spec());
    assert(Node::describes(x.fields_spec(), x)) by {
        match x.content {
            Some(m) => {
                assert(render_msg(m.kind, m@) == crate::message::concat_all(m@));
                assert(tokenize_spec(render_msg(m.kind, m@)) == m@);
            }
            None => {}
        }
        match x.seq {
            Some(m) => {
                assert(render_msg(m.kind, m@) == crate::message::concat_all(m@));
                assert(tokenize_spec(render_msg(m.kind, m@)) == m@);
            }
            None => {}
        }
    }
}

/// A token in canonical compact JSON form: the printed text of some
/// printable value.
pub open spec fn elem_canonical(e: Seq<char>) -> bool {
    exists|v: JsonV| crate::json::wf_jv(v) && print_jv(v) == e
}

/// A message whose every token is in canonical compact JSON form.
pub open spec fn msg_json_canonical(m: Seq<Seq<char>>) -> bool {
    forall|i: int| 0 <= i < m.len() ==> elem_canonical(#[trigger] m[i])
}

/// The values canonical tokens print.
pub open spec fn elems_values(m: Seq<Seq<char>>) -> Seq<JsonV> {
    Seq::new(
        m.len(),
        |i: int| choose|v: JsonV| crate::json::wf_jv(v) && print_jv(v) == m[i],
    )
}

proof fn lemma_elems_values(m: Seq<Seq<char>>, k: int)
    requires
        msg_json_canonical(m),
        0 <= k <= m.len(),
    ensures
        forall|i: int| 0 <= i < m.len() ==> crate::json::wf_jv(#[trigger] elems_values(m)[i])
            && print_jv(elems_values(m)[i]) == m[i],
        crate::json::print_items(elems_values(m), k) == join_comma(m.skip(k)),
        printed_items(elems_values(m), k) == m.skip(k),
    decreases m.len() - k,
{
    let vs = elems_values(m);
    assert forall|i: int| 0 <= i < m.len() implies crate::json::wf_jv(#[trigger] vs[i])
        && print_jv(vs[i]) == m[i] by {
        assert(elem_canonical(m[i]));
        let v = choose|v: JsonV| crate::json::wf_jv(v) && print_jv(v) == m[i];
        assert(crate::json::wf_jv(v) && print_jv(v) == m[i]);
    }
    if k == m.len() {
        assert(m.skip(k) =~= Seq::<Seq<char>>::empty());
        assert(printed_items(vs, k) =~= m.skip(k));
    } else {
        lemma_elems_values(m, k + 1);
        lemma_printed_items(vs, k);
        lemma_printed_items(vs, k + 1);
        if k + 1 < m.len() {
            assert(m.skip(k)[0] == m[k]);
            assert(m.skip(k).skip(1) =~= m.skip(k + 1));
            assert(join_comma(m.skip(k)) == m[k] + seq![','] + join_comma(m.skip(k + 1)));
        } else {
            assert(m.skip(k) =~= seq![m[k]]);
        }
        assert(printed_items(vs, k) =~= m.skip(k)) by {
            assert forall|u: int| 0 <= u < m.len() - k implies #[trigger] printed_items(
                vs,
                k,
            )[u] == m.skip(k)[u] by {}
        }
    }
}

/// The texts of an object's printed members.
pub open spec fn member_texts(fields: Seq<(Seq<char>, JsonV)>) -> Seq<Seq<char>> {
    Seq::new(
        fields.len(),
        |i: int| crate::json::print_string(fields[i].0) + seq![':'] + print_jv(fields[i].1),
    )
}

proof fn lemma_print_fields_join(fields: Seq<(Seq<char>, JsonV)>, k: int)
    requires
        0 <= k <= fields.len(),
    ensures
        crate::json::print_fields(fields, k) == join_comma(member_texts(fields).skip(k)),
    decreases fields.len() - k,
{
    let ts = member_texts(fields);
    if k == fields.len() {
        assert(ts.skip(k) =~= Seq::<Seq<char>>::empty());
    } else {
        lemma_print_fields_join(fields, k + 1);
        assert(ts.skip(k)[0] == ts[k]);
        if k + 1 < fields.len() {
            assert(ts.skip(k).skip(1) =~= ts.skip(k + 1));
            assert(join_comma(ts.skip(k)) == ts[k] + seq![','] + join_comma(ts.skip(k + 1)));
        } else {
            assert(ts.skip(k) =~= seq![ts[k]]);
        }
    }
}

proof fn lemma_member_texts_concat(a: Seq<(Seq<char>, JsonV)>, b: Seq<(Seq<char>, JsonV)>)
    ensures
        member_texts(a + b) == member_texts(a) + member_texts(b),
{
    assert forall|i: int| 0 <= i < a.len() + b.len() implies #[trigger] member_texts(a + b)[i]
        == (member_texts(a) + member_texts(b))[i] by {
        if i < a.len() {
            assert((a + b)[i] == a[i]);
        } else {
            assert((a + b)[i] == b[i - a.len()]);
        }
    }
    assert(member_texts(a + b) =~= member_texts(a) + member_texts(b));
}

/// Escaping leaves a text of word characters unchanged.
proof fn lemma_escape_plain(s: Seq<char>)
    requires
        forall|i: int| 0 <= i < s.len() ==> crate::text::is_word_char(#[trigger] s[i]),
    ensures
        crate::json::json_escape(s) == s,
    decreases s.len(),
{
    if s.len() > 0 {
        assert(crate::text::is_word_char(s[0]));
        assert(crate::json::json_escape_char(s[0]) =~= seq![s[0]]);
        assert(forall|i: int| 0 <= i < s.skip(1).len() ==> crate::text::is_word_char(
            #[trigger] s.skip(1)[i],
        ));
        lemma_escape_plain(s.skip(1));
        assert(crate::json::json_escape(s) =~= s);
    }
}

/// The `data` members of a node as JSON values, from slot `k` on.
pub open spec fn node_jmembers_v(x: Node, k: int) -> Seq<(Seq<char>, JsonV)>
    decreases 5 - k when 0 <= k
{
    if k >= 5 {
        Seq::empty()
    } else {
        (if k == 0 {
            match x.id {
                Some(v) => seq![
                    (seq!['i', 'd'], JsonV::Num(crate::text::int_dec_chars(v as int))),
                ],
                None => Seq::<(Seq<char>, JsonV)>::empty(),
            }
        } else if k == 1 {
            match x.name {
                Some(nm) => seq![(seq!['n', 'a', 'm', 'e'], JsonV::Str(nm@))],
                None => Seq::<(Seq<char>, JsonV)>::empty(),
            }
        } else if k == 2 {
            match x.uin {
                Some(v) => seq![
                    (seq!['u', 'i', 'n'], JsonV::Num(crate::text::int_dec_chars(v as int))),
                ],
                None => Seq::<(Seq<char>, JsonV)>::empty(),
            }
        } else if k == 3 {
            match x.content {
                Some(m) => seq![
                    (seq!['c', 'o', 'n', 't', 'e', 'n', 't'], JsonV::Arr(elems_values(m@))),
                ],
                None => Seq::<(Seq<char>, JsonV)>::empty(),
            }
        } else {
            match x.seq {
                Some(m) => seq![(seq!['s', 'e', 'q'], JsonV::Arr(elems_values(m@)))],
                None => Seq::<(Seq<char>, JsonV)>::empty(),
            }
        }) + node_jmembers_v(x, k + 1)
    }
}

/// The whole node as a JSON value.
pub open spec fn node_tree(x: Node) -> JsonV {
    JsonV::Obj(
        seq![
            (type_key(), JsonV::Str(Node::tag_spec())),
            (data_key(), JsonV::Obj(node_jmembers_v(x, 0))),
        ],
    )
}

/// The node's decoded JSON fields.
pub open spec fn node_jfields(x: Node) -> Seq<Option<NodeVal>> {
    seq![
        match x.id { Some(v) => Some(NodeVal::Int(v as int)), None => None },
        match x.name { Some(nm) => Some(NodeVal::Text(nm@)), None => None },
        match x.uin { Some(v) => Some(NodeVal::Int(v as int)), None => None },
        match x.content { Some(m) => Some(NodeVal::Body(m@)), None => None },
        match x.seq { Some(m) => Some(NodeVal::Body(m@)), None => None },
    ]
}

/// The node's fields with the slots before `k` filled in.
spec fn node_partial(x: Node, k: int) -> Seq<Option<NodeVal>> {
    Seq::new(5, |i: int| if i < k {
        node_jfields(x)[i]
    } else {
        None
    })
}

proof fn lemma_node_members_wf(x: Node, k: int)
    requires
        0 <= k,
        x.content matches Some(m) ==> msg_json_canonical(m@),
        x.seq matches Some(m) ==> msg_json_canonical(m@),
    ensures
        forall|t: int| 0 <= t < node_jmembers_v(x, k).len() ==> crate::json::wf_jv(
            #[trigger] node_jmembers_v(x, k)[t].1,
        ),
    decreases 5 - k,
{
    if k < 5 {
        lemma_node_members_wf(x, k + 1);
        let ms = node_jmembers_v(x, k);
        let tail = node_jmembers_v(x, k + 1);
        if k == 0 {
            match x.id {
                Some(v) => {
                    crate::json::lemma_rendered_num_token(v as int);
                }
                None => {}
            }
        } else if k == 2 {
            match x.uin {
                Some(v) => {
                    crate::json::lemma_rendered_num_token(v as int);
                }
                None => {}
            }
        } else if k == 3 {
            match x.content {
                Some(m) => {
                    lemma_elems_values(m@, 0);
                }
                None => {}
            }
        } else if k == 4 {
            match x.seq {
                Some(m) => {
                    lemma_elems_values(m@, 0);
                }
                None => {}
            }
        }
        assert forall|t: int| 0 <= t < ms.len() implies crate::json::wf_jv(
            #[trigger] ms[t].1,
        ) by {
            let head = ms.len() - tail.len();
            if t >= head {
                assert(ms[t] == tail[t - head]);
            }
        }
    }
}

#[verifier::rlimit(60)]
#[verifier::spinoff_prover]
proof fn lemma_node_member_texts(x: Node)
    requires
        x.content matches Some(m) ==> msg_json_canonical(m@),
        x.seq matches Some(m) ==> msg_json_canonical(m@),
    ensures
        member_texts(node_jmembers_v(x, 0)) == node_json_members(x),
{
    let o0 = node_jmembers_v(x, 0).take(node_jmembers_v(x, 0).len() - node_jmembers_v(
        x,
        1,
    ).len());
    // Work slot by slot: the member list is the concatenation of five
    // independent optional singletons, and mapping to texts distributes
    // over concatenation.
    let s0: Seq<(Seq<char>, JsonV)> = match x.id {
        Some(v) => seq![(seq!['i', 'd'], JsonV::Num(crate::text::int_dec_chars(v as int)))],
        None => Seq::empty(),
    };
    let s1: Seq<(Seq<char>, JsonV)> = match x.name {
        Some(nm) => seq![(seq!['n', 'a', 'm', 'e'], JsonV::Str(nm@))],
        None => Seq::empty(),
    };
    let s2: Seq<(Seq<char>, JsonV)> = match x.uin {
        Some(v) => seq![(seq!['u', 'i', 'n'], JsonV::Num(crate::text::int_dec_chars(v as int)))],
        None => Seq::empty(),
    };
    let s3: Seq<(Seq<char>, JsonV)> = match x.content {
        Some(m) => seq![(seq!['c', 'o', 'n', 't', 'e', 'n', 't'], JsonV::Arr(elems_values(m@)))],
        None => Seq::empty(),
    };
    let s4: Seq<(Seq<char>, JsonV)> = match x.seq {
        Some(m) => seq![(seq!['s', 'e', 'q'], JsonV::Arr(elems_values(m@)))],
        None => Seq::empty(),
    };
    assert(node_jmembers_v(x, 5) =~= Seq::<(Seq<char>, JsonV)>::empty());
    assert(node_jmembers_v(x, 4) == s4 + node_jmembers_v(x, 5));
    assert(s4 + node_jmembers_v(x, 5) =~= s4);
    assert(node_jmembers_v(x, 3) == s3 + node_jmembers_v(x, 4));
    assert(node_jmembers_v(x, 2) == s2 + node_jmembers_v(x, 3));
    assert(node_jmembers_v(x, 1) == s1 + node_jmembers_v(x, 2));
    assert(node_jmembers_v(x, 0) == s0 + node_jmembers_v(x, 1));
    lemma_member_texts_concat(s0, node_jmembers_v(x, 1));
    lemma_member_texts_concat(s1, node_jmembers_v(x, 2));
    lemma_member_texts_concat(s2, node_jmembers_v(x, 3));
    lemma_member_texts_concat(s3, node_jmembers_v(x, 4));
    lemma_member_texts_concat(s4, node_jmembers_v(x, 5));
    assert(member_texts(node_jmembers_v(x, 5)) =~= Seq::<Seq<char>>::empty());
    // Each slot's text.
    let t0: Seq<Seq<char>> = match x.id {
        Some(v) => seq!["\"id\":"@ + crate::text::int_dec_chars(v as int)],
        None => Seq::empty(),
    };
    assert(member_texts(s0) =~= t0) by {
        match x.id {
            Some(v) => {
                reveal_strlit("id");
                reveal_strlit("\"id\":");
                assert("id"@ =~= seq!['i', 'd']);
                lemma_escape_plain(seq!['i', 'd']);
                assert(member_texts(s0)[0] =~= "\"id\":"@ + crate::text::int_dec_chars(
                    v as int,
                ));
            }
            None => {}
        }
    }
    let t1: Seq<Seq<char>> = match x.name {
        Some(nm) => seq!["\"name\":"@ + crate::json::print_string(nm@)],
        None => Seq::empty(),
    };
    assert(member_texts(s1) =~= t1) by {
        match x.name {
            Some(nm) => {
                reveal_strlit("name");
                reveal_strlit("\"name\":");
                assert("name"@ =~= seq!['n', 'a', 'm', 'e']);
                lemma_escape_plain(seq!['n', 'a', 'm', 'e']);
                assert(member_texts(s1)[0] =~= "\"name\":"@ + crate::json::print_string(nm@));
            }
            None => {}
        }
    }
    let t2: Seq<Seq<char>> = match x.uin {
        Some(v) => seq!["\"uin\":"@ + crate::text::int_dec_chars(v as int)],
        None => Seq::empty(),
    };
    assert(member_texts(s2) =~= t2) by {
        match x.uin {
            Some(v) => {
                reveal_strlit("uin");
                reveal_strlit("\"uin\":");
                assert("uin"@ =~= seq!['u', 'i', 'n']);
                lemma_escape_plain(seq!['u', 'i', 'n']);
                assert(member_texts(s2)[0] =~= "\"uin\":"@ + crate::text::int_dec_chars(
                    v as int,
                ));
            }
            None => {}
        }
    }
    let t3: Seq<Seq<char>> = match x.content {
        Some(m) => seq!["\"content\":["@ + join_comma(m@) + seq![']']],
        None => Seq::empty(),
    };
    assert(member_texts(s3) =~= t3) by {
        match x.content {
            Some(m) => {
                reveal_strlit("content");
                reveal_strlit("\"content\":[");
                assert("content"@ =~= seq!['c', 'o', 'n', 't', 'e', 'n', 't']);
                lemma_escape_plain(seq!['c', 'o', 'n', 't', 'e', 'n', 't']);
                lemma_elems_values(m@, 0);
                assert(m@.skip(0) =~= m@);
                assert(print_jv(JsonV::Arr(elems_values(m@))) == seq!['[']
                    + crate::json::print_items(elems_values(m@), 0) + seq![']']);
                assert(member_texts(s3)[0] =~= "\"content\":["@ + join_comma(m@) + seq![']']);
            }
            None => {}
        }
    }
    let t4: Seq<Seq<char>> = match x.seq {
        Some(m) => seq!["\"seq\":["@ + join_comma(m@) + seq![']']],
        None => Seq::empty(),
    };
    assert(member_texts(s4) =~= t4) by {
        match x.seq {
            Some(m) => {
                reveal_strlit("seq");
                reveal_strlit("\"seq\":[");
                assert("seq"@ =~= seq!['s', 'e', 'q']);
                lemma_escape_plain(seq!['s', 'e', 'q']);
                lemma_elems_values(m@, 0);
                assert(m@.skip(0) =~= m@);
                assert(print_jv(JsonV::Arr(elems_values(m@))) == seq!['[']
                    + crate::json::print_items(elems_values(m@), 0) + seq![']']);
                assert(member_texts(s4)[0] =~= "\"seq\":["@ + join_comma(m@) + seq![']']);
            }
            None => {}
        }
    }
    assert(member_texts(node_jmembers_v(x, 0)) =~= t0 + t1 + t2 + t3 + t4);
    assert(node_json_members(x) =~= t0 + t1 + t2 + t3 + t4);
}

#[verifier::rlimit(60)]
#[verifier::spinoff_prover]
proof fn lemma_apply_node_jmembers(x: Node, k: int)
    requires
        0 <= k <= 5,
        x.content matches Some(m) ==> msg_json_canonical(m@),
        x.seq matches Some(m) ==> msg_json_canonical(m@),
    ensures
        apply_node_members(node_jmembers_v(x, k), node_partial(x, k)) == Ok::<
            Seq<Option<NodeVal>>,
            SegErr,
        >(node_jfields(x)),
    decreases 5 - k,
{
    if k == 5 {
        assert(node_jmembers_v(x, k) =~= Seq::<(Seq<char>, JsonV)>::empty());
        assert(node_partial(x, 5) =~= node_jfields(x));
    } else {
        lemma_apply_node_jmembers(x, k + 1);
        let tail = node_jmembers_v(x, k + 1);
        let present: bool = if k == 0 {
            x.id is Some
        } else if k == 1 {
            x.name is Some
        } else if k == 2 {
            x.uin is Some
        } else if k == 3 {
            x.content is Some
        } else {
            x.seq is Some
        };
        if present {
            let ms = node_jmembers_v(x, k);
            assert(ms.skip(1) =~= tail);
            assert(node_member_slot(ms[0].0) == k);
            assert(node_member_val(k, ms[0].1) == Some(node_jfields(x)[k]->Some_0)) by {
                if k == 0 {
                    let v = x.id->Some_0;
                    crate::text::lemma_parse_of_rendered(v as int);
                } else if k == 2 {
                    let v = x.uin->Some_0;
                    crate::text::lemma_parse_of_rendered(v as int);
                } else if k == 3 {
                    let m = x.content->Some_0;
                    lemma_elems_values(m@, 0);
                    assert(m@.skip(0) =~= m@);
                } else if k == 4 {
                    let m = x.seq->Some_0;
                    lemma_elems_values(m@, 0);
                    assert(m@.skip(0) =~= m@);
                }
            }
            assert(node_partial(x, k).update(k, Some(node_jfields(x)[k]->Some_0))
                =~= node_partial(x, k + 1));
        } else {
            assert(node_jmembers_v(x, k) =~= tail);
            assert(node_partial(x, k) =~= node_partial(x, k + 1));
        }
    }
}

/// Round trip of the JSON notation for forward nodes: with every
/// nested token in canonical compact form, decoding an encoded node
/// recovers exactly its fields, nested messages included.
#[verifier::rlimit(100)]
#[verifier::spinoff_prover]
pub proof fn lemma_node_json_round_trip(x: Node)
    requires
        x.content matches Some(m) ==> msg_json_canonical(m@),
        x.seq matches Some(m) ==> msg_json_canonical(m@),
    ensures
        node_decode_json_spec(node_json_text(x)) == Ok::<_, SegErr>(node_jfields(x)),
        node_json_describes(node_jfields(x), x),
{
    let tree = node_tree(x);
    let fs = tree->Obj_0;
    let members = node_jmembers_v(x, 0);
    // The printed tree is exactly the node's wire text.
    lemma_node_member_texts(x);
    lemma_print_fields_join(members, 0);
    assert(member_texts(members).skip(0) =~= member_texts(members));
    lemma_escape_plain(type_key());
    lemma_escape_plain(data_key());
    lemma_escape_plain(Node::tag_spec());
    assert(crate::json::print_fields(fs, 0) == crate::json::print_string(fs[0].0) + seq![':']
        + print_jv(fs[0].1) + seq![','] + crate::json::print_fields(fs, 1));
    assert(crate::json::print_fields(fs, 1) == crate::json::print_string(fs[1].0) + seq![':']
        + print_jv(fs[1].1));
    assert(print_jv(fs[1].1) == seq!['{'] + crate::json::print_fields(members, 0) + seq!['}']);
    assert(print_jv(tree) =~= node_json_text(x)) by {
        reveal_strlit("{\"type\":\"node\",\"data\":{");
    }
    // It parses back to the tree.
    lemma_node_members_wf(x, 0);
    assert(crate::json::wf_jv(JsonV::Obj(members))) by {
        assert forall|t: int| 0 <= t < members.len() implies crate::json::wf_jv(
            #[trigger] members[t].1,
        ) by {
            assert(members[t] == node_jmembers_v(x, 0)[t]);
        }
    }
    assert(crate::json::wf_jv(tree)) by {
        assert forall|t: int| 0 <= t < fs.len() implies crate::json::wf_jv(
            #[trigger] fs[t].1,
        ) by {
            if t == 0 {
                assert(fs[0].1 == JsonV::Str(Node::tag_spec()));
            } else {
                assert(fs[t].1 == JsonV::Obj(members));
            }
        }
    }
    crate::json::lemma_parse_print_text(tree);
    assert(parse_json_text(node_json_text(x)) == Some(tree));
    // The decode walk.
    assert(obj_get(fs, type_key()) == Some(JsonV::Str(Node::tag_spec()))) by {
        assert(fs[0].0 == type_key());
    }
    assert(type_key() != data_key()) by {
        assert(type_key()[0] == 't');
        assert(data_key()[0] == 'd');
    }
    assert(obj_get(fs, data_key()) == Some(JsonV::Obj(members))) by {
        assert(fs[0].0 != data_key());
        assert(fs.skip(1) =~= seq![(data_key(), JsonV::Obj(members))]);
        assert(fs.skip(1)[0].0 == data_key());
        assert(obj_get(fs.skip(1), data_key()) == Some(fs.skip(1)[0].1));
    }
    assert(crate::text::lower_chars(Node::tag_spec()) =~= Node::tag_spec());
    lemma_apply_node_jmembers(x, 0);
    assert(node_none_fields() =~= node_partial(x, 0));
}

// ------------------------------------------------------------------
// PlainText: the degenerate shape without a bracket form
// ------------------------------------------------------------------

/// Plain text.  Not a bracketed segment: its inline form is the literal
/// text itself; only its JSON form carries the `text` tag.
#[derive(Debug)]
pub struct Text {
    pub text: Option<String>,
}

impl Text {
    pub open spec fn tag_spec() -> Seq<char> {
        seq!['t', 'e', 'x', 't']
    }

    pub open spec fn schema_spec() -> Seq<(Seq<char>, FieldKind)> {
        seq![(seq!['t', 'e', 'x', 't'], FieldKind::Text)]
    }

    pub open spec fn fields_spec(&self) -> Seq<Option<FieldVal>> {
        seq![
            match self.text { Some(s) => Some(FieldVal::Text(s@)), None => None },
        ]
    }

    fn decls() -> (r: Vec<FieldDecl>)
        ensures
            schema_view(r@) == Self::schema_spec(),
    {
        let mut r: Vec<FieldDecl> = Vec::new();
        r.push(FieldDecl { name: "text".to_owned(), kind: FieldKind::Text });
        proof {
            reveal_strlit("text");
            assert("text"@ =~= seq!['t', 'e', 'x', 't']);
            assert(schema_view(r@) =~= Self::schema_spec());
        }
        r
    }

    fn to_vals(&self) -> (r: Vec<Option<FieldValue>>)
        ensures
            vals_view(r@) == self.fields_spec(),
    {
        let mut r: Vec<Option<FieldValue>> = Vec::new();
        r.push(match &self.text {
            Some(s) => Some(FieldValue::Text(s.clone())),
            None => None,
        });
        proof {
            assert(vals_view(r@) =~= self.fields_spec());
        }
        r
    }

    fn from_vals(vals: &Vec<Option<FieldValue>>) -> (r: Text)
        requires
            wf_vals(Self::schema_spec(), vals_view(vals@)),
        ensures
            r.fields_spec() == vals_view(vals@),
    {
        let r = Text {
            text: match &vals[0] {
                Some(FieldValue::Text(s)) => Some(s.clone()),
                _ => None,
            },
        };
        proof {
            assert(r.fields_spec() =~= vals_view(vals@));
        }
        r
    }
}

impl CQCode for Text {
    /// The inline form of plain text is the text itself; an absent text
    /// renders as the empty string.
    fn to_string(&self) -> (r: String)
        ensures
            r@ == (match self.text {
                Some(s) => s@,
                None => Seq::<char>::empty(),
            }),
    {
        match &self.text {
            Some(s) => s.clone(),
            None => String::new(),
        }
    }

    /// Any text parses; the whole input becomes the one field.
    fn from_string(s: String) -> (r: Result<Text, SegmentError>)
        ensures
            r matches Ok(x) && x.text matches Some(t) && t@ == s@,
    {
        Ok(Text { text: Some(s) })
    }

    fn to_json(&self) -> (r: Result<String, SegmentError>)
        ensures
            r matches Ok(t) && t@ == encode_json_spec(
                Text::tag_spec(),
                Text::schema_spec(),
                self.fields_spec(),
            ),
    {
        let d = Text::decls();
        let v = self.to_vals();
        proof {
            reveal_strlit("text");
            assert("text"@ =~= Text::tag_spec());
            assert(schema_view(d@).len() == d@.len());
            assert(vals_view(v@).len() == v@.len());
        }
        Ok(encode_json("text", &d, &v))
    }

    fn from_json(s: &str) -> (r: Result<Text, SegmentError>)
        ensures
            match r {
                Ok(x) => decode_json_spec(Text::tag_spec(), Text::schema_spec(), s@)
                    == Ok::<_, SegErr>(x.fields_spec()),
                Err(e) => decode_json_spec(Text::tag_spec(), Text::schema_spec(), s@)
                    == Err::<Seq<Option<FieldVal>>, _>(e@),
            },
    {
        let chars = str_chars(s);
        let d = Text::decls();
        proof {
            reveal_strlit("text");
            assert("text"@ =~= Text::tag_spec());
        }
        match decode_json("text", &d, &chars) {
            Ok(vals) => {
                proof {
                    let schema = Text::schema_spec();
                    let acc = none_fields(schema.len() as int);
                    match parse_json_text(s@) {
                        Some(JsonV::Obj(fs)) => {
                            match obj_get(fs, data_key()) {
                                Some(JsonV::Obj(dfs)) => {
                                    assert(apply_jmembers(schema, dfs, acc)
                                        == Ok::<_, SegErr>(vals_view(vals@)));
                                    lemma_apply_jmembers_len(schema, dfs, acc);
                                    lemma_apply_jmembers_fits(schema, dfs, acc);
                                }
                                _ => {}
                            }
                        }
                        _ => {}
                    }
                }
                Ok(Text::from_vals(&vals))
            }
            Err(e) => Err(e),
        }
    }
}

/// Round trip for plain text.  The inline direction is immediate from
/// the two contracts: the rendering of a present text is the text, and
/// any text parses back into a present field.  The JSON notation goes
/// through the shared codec.
pub proof fn lemma_text_round_trip(x: Text)
    ensures
        decode_json_spec(
            Text::tag_spec(),
            Text::schema_spec(),
            encode_json_spec(Text::tag_spec(), Text::schema_spec(), x.fields_spec()),
        ) == Ok::<_, SegErr>(x.fields_spec()),
{
    assert(crate::text::lower_chars(Text::tag_spec()) =~= Text::tag_spec());
    assert(wf_tag(Text::tag_spec()));
    assert(wf_schema(Text::schema_spec()));
    assert(wf_vals(Text::schema_spec(), x.fields_spec()));
    crate::message::cq_code::lemma_json_round_trip(
        Text::tag_spec(),
        Text::schema_spec(),
        x.fields_spec(),
    );
}

// ------------------------------------------------------------------
// Tag resolution
// ------------------------------------------------------------------

/// The tags of every shape in the catalog (the plain-text shape has no
/// bracket form and so no inline tag).
pub open spec fn catalog_tags() -> Seq<Seq<char>> {
    seq![
        seq!['f', 'a', 'c', 'e'],
        seq!['r', 'e', 'c', 'o', 'r', 'd'],
        seq!['v', 'i', 'd', 'e', 'o'],
        seq!['a', 't'],
        seq!['r', 'p', 's'],
        seq!['d', 'i', 'c', 'e'],
        seq!['s', 'h', 'a', 'k', 'e'],
        seq!['a', 'n', 'o', 'n', 'y', 'm', 'o', 'u', 's'],
        seq!['s', 'h', 'a', 'r', 'e'],
        seq!['c', 'o', 'n', 't', 'a', 'c', 't'],
        seq!['l', 'o', 'c', 'a', 't', 'i', 'o', 'n'],
        seq!['m', 'u', 's', 'i', 'c'],
        seq!['i', 'm', 'a', 'g', 'e'],
        seq!['r', 'e', 'p', 'l', 'y'],
        seq!['r', 'e', 'd', 'b', 'a', 'g'],
        seq!['p', 'o', 'k', 'e'],
        seq!['g', 'i', 'f', 't'],
        seq!['f', 'o', 'r', 'w', 'a', 'r', 'd'],
        seq!['n', 'o', 'd', 'e'],
        seq!['x', 'm', 'l'],
        seq!['j', 's', 'o', 'n'],
        seq!['c', 'a', 'r', 'd', 'i', 'm', 'a', 'g', 'e'],
        seq!['t', 't', 's'],
    ]
}

/// What resolving an inline segment token returns: the token must be
/// exactly one segment, and its lower-cased tag must name a shape of
/// the catalog; otherwise resolution fails with the unknown shape,
/// while the token itself remains valid.
pub open spec fn resolve_tag_spec(s: Seq<char>) -> Result<Seq<char>, SegErr> {
    if seg_match(s, 0) != Some(s.len() as int) {
        Err(SegErr::MalformedSegment { raw: s })
    } else {
        let t = crate::text::lower_chars(s.subrange(4, word_run_end(s, 4)));
        if catalog_tags().contains(t) {
            Ok(t)
        } else {
            Err(SegErr::UnknownShape { tag: t })
        }
    }
}

/// Resolves an inline segment token to its catalog tag.
pub fn resolve_tag(s: &str) -> (r: Result<String, SegmentError>)
    ensures
        match r {
            Ok(t) => resolve_tag_spec(s@) == Ok::<_, SegErr>(t@),
            Err(e) => resolve_tag_spec(s@) == Err::<Seq<char>, _>(e@),
        },
{
    let chars = str_chars(s);
    let n = chars.len();
    if !(n >= 4 && chars[0] == '[' && chars[1] == 'C' && chars[2] == 'Q' && chars[3] == ':') {
        return Err(SegmentError::MalformedSegment { raw: s.to_owned() });
    }
    let te = crate::message::cq_code::scan_word(&chars, 4);
    if te == 4 {
        return Err(SegmentError::MalformedSegment { raw: s.to_owned() });
    }
    let mut pairs: Vec<(Vec<char>, Vec<char>)> = Vec::new();
    match scan_fields(&chars, te, &mut pairs) {
        None => {
            return Err(SegmentError::MalformedSegment { raw: s.to_owned() });
        }
        Some(e) => {
            if e != n {
                return Err(SegmentError::MalformedSegment { raw: s.to_owned() });
            }
        }
    }
    let raw_tag = crate::text::chars_sub(&chars, 4, te);
    let t = crate::text::to_lower_chars(&raw_tag);
    let mut tags: Vec<Vec<char>> = Vec::new();
    tags.push(str_chars("face"));
    tags.push(str_chars("record"));
    tags.push(str_chars("video"));
    tags.push(str_chars("at"));
    tags.push(str_chars("rps"));
    tags.push(str_chars("dice"));
    tags.push(str_chars("shake"));
    tags.push(str_chars("anonymous"));
    tags.push(str_chars("share"));
    tags.push(str_chars("contact"));
    tags.push(str_chars("location"));
    tags.push(str_chars("music"));
    tags.push(str_chars("image"));
    tags.push(str_chars("reply"));
    tags.push(str_chars("redbag"));
    tags.push(str_chars("poke"));
    tags.push(str_chars("gift"));
    tags.push(str_chars("forward"));
    tags.push(str_chars("node"));
    tags.push(str_chars("xml"));
    tags.push(str_chars("json"));
    tags.push(str_chars("cardimage"));
    tags.push(str_chars("tts"));
    proof {
        lemma_catalog_literals();
        assert(vecs_view(tags@) =~= catalog_tags());
    }
    let mut k: usize = 0;
    while k < tags.len()
        invariant
            k <= tags@.len(),
            vecs_view(tags@) == catalog_tags(),
            tags@.len() == 23,
            t@ == crate::text::lower_chars(s@.subrange(4, word_run_end(s@, 4))),
            resolve_tag_spec(s@) == (if catalog_tags().contains(t@) {
                Ok::<Seq<char>, SegErr>(t@)
            } else {
                Err::<Seq<char>, SegErr>(SegErr::UnknownShape { tag: t@ })
            }),
            forall|u: int| 0 <= u < k ==> catalog_tags()[u] != t@,
        decreases tags@.len() - k,
    {
        if crate::text::chars_eq(&tags[k], &t) {
            proof {
                assert(catalog_tags()[k as int] == t@);
                assert(catalog_tags().contains(t@));
            }
            return Ok(string_of_chars(&t));
        }
        proof {
            assert(catalog_tags()[k as int] == tags@[k as int]@);
        }
        k = k + 1;
    }
    proof {
        assert(!catalog_tags().contains(t@)) by {
            assert(forall|u: int| 0 <= u < 23 ==> catalog_tags()[u] != t@);
            if catalog_tags().contains(t@) {
                let u = choose|u: int| 0 <= u < catalog_tags().len() && catalog_tags()[u] == t@;
                assert(catalog_tags()[u] != t@);
            }
        }
    }
    Err(SegmentError::UnknownShape { tag: string_of_chars(&t) })
}

/// The catalog's literal tags, as the resolver compares them.
pub open spec fn catalog_literals_known() -> bool {
    &&& "face"@ == catalog_tags()[0]
    &&& "record"@ == catalog_tags()[1]
    &&& "video"@ == catalog_tags()[2]
    &&& "at"@ == catalog_tags()[3]
    &&& "rps"@ == catalog_tags()[4]
    &&& "dice"@ == catalog_tags()[5]
    &&& "shake"@ == catalog_tags()[6]
    &&& "anonymous"@ == catalog_tags()[7]
    &&& "share"@ == catalog_tags()[8]
    &&& "contact"@ == catalog_tags()[9]
    &&& "location"@ == catalog_tags()[10]
    &&& "music"@ == catalog_tags()[11]
    &&& "image"@ == catalog_tags()[12]
    &&& "reply"@ == catalog_tags()[13]
    &&& "redbag"@ == catalog_tags()[14]
    &&& "poke"@ == catalog_tags()[15]
    &&& "gift"@ == catalog_tags()[16]
    &&& "forward"@ == catalog_tags()[17]
    &&& "node"@ == catalog_tags()[18]
    &&& "xml"@ == catalog_tags()[19]
    &&& "json"@ == catalog_tags()[20]
    &&& "cardimage"@ == catalog_tags()[21]
    &&& "tts"@ == catalog_tags()[22]
}

proof fn lemma_catalog_literals()
    ensures
        catalog_literals_known(),
{
    reveal_strlit("face");
    reveal_strlit("record");
    reveal_strlit("video");
    reveal_strlit("at");
    reveal_strlit("rps");
    reveal_strlit("dice");
    reveal_strlit("shake");
    reveal_strlit("anonymous");
    reveal_strlit("share");
    reveal_strlit("contact");
    reveal_strlit("location");
    reveal_strlit("music");
    reveal_strlit("image");
    reveal_strlit("reply");
    reveal_strlit("redbag");
    reveal_strlit("poke");
    reveal_strlit("gift");
    reveal_strlit("forward");
    reveal_strlit("node");
    reveal_strlit("xml");
    reveal_strlit("json");
    reveal_strlit("cardimage");
    reveal_strlit("tts");
    assert("face"@ =~= catalog_tags()[0]);
    assert("record"@ =~= catalog_tags()[1]);
    assert("video"@ =~= catalog_tags()[2]);
    assert("at"@ =~= catalog_tags()[3]);
    assert("rps"@ =~= catalog_tags()[4]);
    assert("dice"@ =~= catalog_tags()[5]);
    assert("shake"@ =~= catalog_tags()[6]);
    assert("anonymous"@ =~= catalog_tags()[7]);
    assert("share"@ =~= catalog_tags()[8]);
    assert("contact"@ =~= catalog_tags()[9]);
    assert("location"@ =~= catalog_tags()[10]);
    assert("music"@ =~= catalog_tags()[11]);
    assert("image"@ =~= catalog_tags()[12]);
    assert("reply"@ =~= catalog_tags()[13]);
    assert("redbag"@ =~= catalog_tags()[14]);
    assert("poke"@ =~= catalog_tags()[15]);
    assert("gift"@ =~= catalog_tags()[16]);
    assert("forward"@ =~= catalog_tags()[17]);
    assert("node"@ =~= catalog_tags()[18]);
    assert("xml"@ =~= catalog_tags()[19]);
    assert("json"@ =~= catalog_tags()[20]);
    assert("cardimage"@ =~= catalog_tags()[21]);
    assert("tts"@ =~= catalog_tags()[22]);
}

} // verus!
