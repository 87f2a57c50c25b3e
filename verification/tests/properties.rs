//! Scenario tests for the stated properties of the codec and the
//! tokenizer: escaping, zero values, nested forward nodes, unknown
//! tags, and each error variant.

use gocqhttp::error::SegmentError;
use gocqhttp::message::{Message, MessageType};
use gocqhttp::message::cq_code::CQCode;
use gocqhttp::message::cq_code::code::{resolve_tag, At, Face, Record, Reply, Text};

#[test]
fn escape_round_trips_reserved_characters() {
    let raw = "a&b[c]d,e".to_string();
    let escaped = <Face as CQCode>::escape(raw.clone());
    assert_eq!(escaped, "a&amp;b&#91;c&#93;d&#44;e");
    assert_eq!(<Face as CQCode>::anti_escape(escaped.as_str()), raw);
}

#[test]
fn escape_keeps_literal_code_text() {
    // The literal text `&#44;` must survive: `&` is escaped first, so
    // un-escaping finds `&amp;` and not a comma code.
    let raw = "&#44;".to_string();
    let escaped = <Face as CQCode>::escape(raw.clone());
    assert_eq!(escaped, "&amp;#44;");
    assert_eq!(<Face as CQCode>::anti_escape(escaped.as_str()), raw);
}

#[test]
fn escaped_field_values_round_trip_through_segment() {
    let t = At {
        qq: Some("1,2]3[4&5".to_string()),
        name: None,
    };
    let wire = t.to_string();
    assert_eq!(wire, "[CQ:at,qq=1&#44;2&#93;3&#91;4&amp;5]");
    let back = At::from_string(wire).unwrap();
    assert_eq!(back.qq, Some("1,2]3[4&5".to_string()));
    assert_eq!(back.name, None);
}

#[test]
fn zero_valued_field_stays_present() {
    let t = Face { id: Some(0) };
    assert_eq!(t.to_string(), "[CQ:face,id=0]");
    let back = Face::from_string("[CQ:face,id=0]".to_string()).unwrap();
    assert_eq!(back.id, Some(0));
    assert_eq!(t.to_json().unwrap(), r#"{"type":"face","data":{"id":0}}"#);
}

#[test]
fn zero_valued_field_differs_from_absent() {
    let zero = Record {
        file: None,
        magic: None,
        url: None,
        cache: None,
        proxy: None,
        timeout: Some(0),
    };
    assert_eq!(zero.to_string(), "[CQ:record,timeout=0]");
    let absent = Record {
        file: None,
        magic: None,
        url: None,
        cache: None,
        proxy: None,
        timeout: None,
    };
    assert_eq!(absent.to_string(), "[CQ:record]");
}

#[test]
fn absent_fields_decode_to_absent() {
    let t = Face::from_string("[CQ:face]".to_string()).unwrap();
    assert_eq!(t.id, None);
    let u = Face::from_json(r#"{"type":"face","data":{}}"#).unwrap();
    assert_eq!(u.id, None);
}

#[test]
fn negative_and_extreme_values_round_trip() {
    let t = Reply {
        id: Some(-2147483648),
        text: None,
        qq: Some(9223372036854775807),
        time: Some(i64::MIN),
        seq: None,
    };
    let wire = t.to_string();
    assert_eq!(
        wire,
        "[CQ:reply,id=-2147483648,qq=9223372036854775807,time=-9223372036854775808]"
    );
    let back = Reply::from_string(wire).unwrap();
    assert_eq!(back.id, Some(-2147483648));
    assert_eq!(back.qq, Some(9223372036854775807));
    assert_eq!(back.time, Some(i64::MIN));
    assert_eq!(back.seq, None);
}

#[test]
fn out_of_range_value_is_a_type_error() {
    let r = Face::from_string("[CQ:face,id=2147483648]".to_string());
    assert!(matches!(r, Err(SegmentError::FieldTypeError { .. })));
}

#[test]
fn unparseable_value_is_a_type_error() {
    let r = Face::from_string("[CQ:face,id=abc]".to_string());
    assert!(matches!(r, Err(SegmentError::FieldTypeError { .. })));
}

#[test]
fn unknown_field_is_rejected() {
    let r = Face::from_string("[CQ:face,zz=1]".to_string());
    assert!(matches!(r, Err(SegmentError::UnknownField { .. })));
}

#[test]
fn wrong_tag_is_a_mismatch() {
    let r = Face::from_string("[CQ:record]".to_string());
    assert!(matches!(r, Err(SegmentError::TagMismatch { .. })));
}

#[test]
fn tag_case_is_normalized_on_decode() {
    let t = Face::from_string("[CQ:FACE,id=7]".to_string()).unwrap();
    assert_eq!(t.id, Some(7));
}

#[test]
fn unterminated_segment_is_malformed() {
    let r = Face::from_string("[CQ:face,id=1".to_string());
    assert!(matches!(r, Err(SegmentError::MalformedSegment { .. })));
}

#[test]
fn broken_json_is_malformed() {
    let r = Face::from_json(r#"{"type":"face","data":"#);
    assert!(matches!(r, Err(SegmentError::MalformedSegment { .. })));
}

#[test]
fn json_number_for_text_field_is_a_type_error() {
    let r = Record::from_json(r#"{"type":"record","data":{"file":7}}"#);
    assert!(matches!(r, Err(SegmentError::FieldTypeError { .. })));
}

#[test]
fn unknown_tag_tokenizes_but_does_not_resolve() {
    let s = "a[CQ:unknownthing,x=1]b";
    let m: Message = s.parse().unwrap();
    assert_eq!(m.messages.len(), 3);
    assert_eq!(m.messages[0], "a");
    assert_eq!(m.messages[1], "[CQ:unknownthing,x=1]");
    assert_eq!(m.messages[2], "b");
    let r = resolve_tag(m.messages[1].as_str());
    assert!(matches!(r, Err(SegmentError::UnknownShape { .. })));
}

#[test]
fn known_tag_resolves() {
    assert_eq!(resolve_tag("[CQ:face,id=1]").unwrap(), "face");
    assert_eq!(resolve_tag("[CQ:AT,qq=1]").unwrap(), "at");
}

#[test]
fn tokenizer_keeps_every_character() {
    let s = "x[CQ:face,id=1][CQ:at,qq=2]y[CQ:broken";
    let m: Message = s.parse().unwrap();
    let joined: String = m.messages.concat();
    assert_eq!(joined, s);
}

#[test]
fn forward_node_round_trips_nested_content() {
    let t = gocqhttp::message::cq_code::code::Node {
        id: None,
        name: Some("teller".to_string()),
        uin: Some(99),
        content: Some(Message {
            messages: vec![
                Face { id: Some(1) }.to_json().unwrap(),
                Text {
                    text: Some("hi".to_string()),
                }
                .to_json()
                .unwrap(),
            ],
            kind: MessageType::Json,
        }),
        seq: None,
    };
    let wire = t.to_json().unwrap();
    assert_eq!(
        wire,
        r#"{"type":"node","data":{"name":"teller","uin":99,"content":[{"type":"face","data":{"id":1}},{"type":"text","data":{"text":"hi"}}]}}"#
    );
    let back = gocqhttp::message::cq_code::code::Node::from_json(wire.as_str()).unwrap();
    assert_eq!(back.name, Some("teller".to_string()));
    assert_eq!(back.uin, Some(99));
    let content = back.content.unwrap();
    assert_eq!(content.messages.len(), 2);
    assert_eq!(content.messages[0], r#"{"type":"face","data":{"id":1}}"#);
    assert_eq!(content.messages[1], r#"{"type":"text","data":{"text":"hi"}}"#);
    assert_eq!(back.seq, None);
}

#[test]
fn text_segment_renders_verbatim() {
    let t = Text {
        text: Some("你好[not a tag]".to_string()),
    };
    assert_eq!(t.to_string(), "你好[not a tag]");
    assert_eq!(
        t.to_json().unwrap(),
        r#"{"type":"text","data":{"text":"你好[not a tag]"}}"#
    );
    let back = Text::from_json(r#"{"type":"text","data":{"text":"你好[not a tag]"}}"#).unwrap();
    assert_eq!(back.text, Some("你好[not a tag]".to_string()));
}

#[test]
fn json_decode_accepts_whitespace_and_any_member_order() {
    let t = Face::from_json(" { \"data\" : { \"id\" : 5 } , \"type\" : \"face\" } ").unwrap();
    assert_eq!(t.id, Some(5));
}

#[test]
fn error_description_names_the_field() {
    let r = Face::from_string("[CQ:face,zz=1]".to_string());
    match r {
        Err(e) => assert_eq!(e.describe(), "unknown field: zz"),
        Ok(_) => panic!("decoding should have failed"),
    }
}

#[test]
fn json_unicode_escapes_decode() {
    let t = Record::from_json(
        r#"{"type":"record","data":{"file":"\u003chi\u003e \u0026 you"}}"#,
    )
    .unwrap();
    assert_eq!(t.file, Some("<hi> & you".to_string()));
}

#[test]
fn json_surrogate_pair_decodes() {
    let t = Text::from_json(r#"{"type":"text","data":{"text":"\ud83d\ude00"}}"#).unwrap();
    assert_eq!(t.text, Some("\u{1f600}".to_string()));
}

#[test]
fn json_lone_surrogate_is_malformed() {
    let r = Text::from_json(r#"{"type":"text","data":{"text":"\ud83d"}}"#);
    assert!(matches!(r, Err(SegmentError::MalformedSegment { .. })));
}

#[test]
fn control_characters_are_hex_escaped() {
    let t = Text {
        text: Some("a\u{1}b".to_string()),
    };
    let wire = t.to_json().unwrap();
    assert_eq!(wire, "{\"type\":\"text\",\"data\":{\"text\":\"a\\u0001b\"}}");
    let back = Text::from_json(wire.as_str()).unwrap();
    assert_eq!(back.text, Some("a\u{1}b".to_string()));
}
