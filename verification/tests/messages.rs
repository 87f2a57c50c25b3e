use gocqhttp::message::{Message, MessageType};
use gocqhttp::message::cq_code::CQCode;
use gocqhttp::message::cq_code::code::Face;

#[test]
fn test_message_from_str0() {
    let s = "";
    let m: Message = s.parse().unwrap();
    assert_eq!(m.messages.len(), 1);
    assert_eq!(m.messages[0], "");
    assert_eq!(m.to_string(), "");
}

#[test]
fn test_message_from_str1() {
    let s = "你好世界";
    let m: Message = s.parse().unwrap();
    assert_eq!(m.messages.len(), 1);
    assert_eq!(m.messages[0], "你好世界");
    assert_eq!(m.to_string(), "你好世界");
}

#[test]
fn test_message_from_str2() {
    let s = "[CQ:at,qq=123]";
    let m: Message = s.parse().unwrap();
    assert_eq!(m.messages.len(), 1);
    assert_eq!(m.messages[0], "[CQ:at,qq=123]");
    assert_eq!(m.to_string(), "[CQ:at,qq=123]");
}

#[test]
fn test_message_from_str3() {
    let s = "你好[CQ:at,qq=123]世界[CQ:at,qq=456]你好";
    let m: Message = s.parse().unwrap();
    assert_eq!(m.messages.len(), 5);
    assert_eq!(m.messages[0], "你好");
    assert_eq!(m.messages[1], "[CQ:at,qq=123]");
    assert_eq!(m.messages[2], "世界");
    assert_eq!(m.messages[3], "[CQ:at,qq=456]");
    assert_eq!(m.messages[4], "你好");
    assert_eq!(m.to_string(), "你好[CQ:at,qq=123]世界[CQ:at,qq=456]你好");
}

#[test]
fn test_message_from_str4() {
    let s = r#"[{"type":"face","data":{"id":1}}]"#;
    let m: Message = s.parse().unwrap();
    assert_eq!(m.messages.len(), 1);
    assert_eq!(m.messages[0], r#"{"type":"face","data":{"id":1}}"#);
    assert_eq!(m.to_string(), r#"[{"type":"face","data":{"id":1}}]"#);
}

#[test]
fn test_message_from_str5() {
    let s = r#"[{"type":"face","data":{"id":1}},{"type":"face","data":{"id":2}}]"#;
    let m: Message = s.parse().unwrap();
    assert_eq!(m.messages.len(), 2);
    assert_eq!(m.messages[0], r#"{"type":"face","data":{"id":1}}"#);
    assert_eq!(m.messages[1], r#"{"type":"face","data":{"id":2}}"#);
    assert_eq!(
        m.to_string(),
        r#"[{"type":"face","data":{"id":1}},{"type":"face","data":{"id":2}}]"#
    );
}

#[test]
fn test_message_from_str6() {
    let s = r#"[{"type":"face","data":{"id":1}},{"type":"face","data":{"id":2}},{"type":"text","data":{"text":"你好世界"}}]"#;
    let m: Message = s.parse().unwrap();
    assert_eq!(m.messages.len(), 3);
    assert_eq!(m.messages[0], r#"{"type":"face","data":{"id":1}}"#);
    assert_eq!(m.messages[1], r#"{"type":"face","data":{"id":2}}"#);
    assert_eq!(m.messages[2], r#"{"type":"text","data":{"text":"你好世界"}}"#);
    assert_eq!(
        m.to_string(),
        r#"[{"type":"face","data":{"id":1}},{"type":"face","data":{"id":2}},{"type":"text","data":{"text":"你好世界"}}]"#
    );
}

#[test]
fn test_message_from_json0() {
    let s = "";
    let m = Message::from_json(s).unwrap();
    assert!(m.messages.is_empty());
    assert_eq!(m.to_string(), "");
}

#[test]
fn test_message_from_json1() {
    let s = r#"[{"type":"face","data":{"id":1}}]"#;
    let m = Message::from_json(s).unwrap();
    assert_eq!(m.messages.len(), 1);
    assert_eq!(m.messages[0], r#"{"type":"face","data":{"id":1}}"#);
    assert_eq!(m.to_string(), r#"[{"type":"face","data":{"id":1}}]"#);
}

#[test]
fn test_message_from_json2() {
    let s = r#"[{"type":"face","data":{"id":1}},{"type":"face","data":{"id":2}}]"#;
    let m = Message::from_json(s).unwrap();
    assert_eq!(m.messages.len(), 2);
    assert_eq!(m.messages[0], r#"{"type":"face","data":{"id":1}}"#);
    assert_eq!(m.messages[1], r#"{"type":"face","data":{"id":2}}"#);
    assert_eq!(
        m.to_string(),
        r#"[{"type":"face","data":{"id":1}},{"type":"face","data":{"id":2}}]"#
    );
}

#[test]
fn test_message_from_json3() {
    let s = r#"[{"type":"face","data":{"id":1}},{"type":"face","data":{"id":2}},{"type":"text","data":{"text":"你好世界"}}]"#;
    let m = Message::from_json(s).unwrap();
    assert_eq!(m.messages.len(), 3);
    assert_eq!(m.messages[0], r#"{"type":"face","data":{"id":1}}"#);
    assert_eq!(m.messages[1], r#"{"type":"face","data":{"id":2}}"#);
    assert_eq!(m.messages[2], r#"{"type":"text","data":{"text":"你好世界"}}"#);
    assert_eq!(
        m.to_string(),
        r#"[{"type":"face","data":{"id":1}},{"type":"face","data":{"id":2}},{"type":"text","data":{"text":"你好世界"}}]"#
    );
}

#[test]
fn test_macro_message_from_strings0() {
    let m = Message {
        messages: vec![],
        kind: MessageType::String,
    };
    assert!(m.messages.is_empty());
    assert_eq!(m.to_string(), "");
}

#[test]
fn test_macro_message_from_strings1() {
    let m = Message {
        messages: vec!["你好世界".to_string()],
        kind: MessageType::String,
    };
    assert_eq!(m.messages.len(), 1);
    assert_eq!(m.messages[0], "你好世界");
    assert_eq!(m.to_string(), "你好世界");
}

#[test]
fn test_macro_message_from_strings2() {
    let m = Message {
        messages: vec!["你好世界".to_string(), Face { id: Some(1) }.to_string()],
        kind: MessageType::String,
    };
    assert_eq!(m.messages.len(), 2);
    assert_eq!(m.messages[0], "你好世界");
    assert_eq!(m.messages[1], "[CQ:face,id=1]");
    assert_eq!(m.to_string(), "你好世界[CQ:face,id=1]");
}

#[test]
fn test_macro_message_from_jsons0() {
    let m = Message {
        messages: vec![],
        kind: MessageType::Json,
    };
    assert!(m.messages.is_empty());
    assert_eq!(m.to_string(), "");
}

#[test]
fn test_macro_message_from_jsons1() {
    let m = Message {
        messages: vec![Face { id: Some(1) }.to_json().unwrap()],
        kind: MessageType::Json,
    };
    assert_eq!(m.messages.len(), 1);
    assert_eq!(m.messages[0], "{\"type\":\"face\",\"data\":{\"id\":1}}");
    assert_eq!(m.to_string(), "[{\"type\":\"face\",\"data\":{\"id\":1}}]");
}

#[test]
fn test_macro_message_from_jsons2() {
    let m = Message {
        messages: vec![
            Face { id: Some(1) }.to_json().unwrap(),
            Face { id: Some(2) }.to_json().unwrap(),
        ],
        kind: MessageType::Json,
    };
    assert_eq!(m.messages.len(), 2);
    assert_eq!(m.messages[0], "{\"type\":\"face\",\"data\":{\"id\":1}}");
    assert_eq!(m.messages[1], "{\"type\":\"face\",\"data\":{\"id\":2}}");
    assert_eq!(
        m.to_string(),
        "[{\"type\":\"face\",\"data\":{\"id\":1}},{\"type\":\"face\",\"data\":{\"id\":2}}]"
    );
}

#[test]
fn brace_initial_text_renders_verbatim() {
    // An inline string whose first text run opens a brace is still the
    // inline notation: re-rendering reproduces it, brackets added never.
    let m: Message = "{x}".parse().unwrap();
    assert_eq!(m.messages.len(), 1);
    assert_eq!(m.messages[0], "{x}");
    assert_eq!(m.message_type(), MessageType::String);
    assert_eq!(m.to_string(), "{x}");

    let s = "{a}[CQ:face,id=1]{b}";
    let m: Message = s.parse().unwrap();
    assert_eq!(m.messages.len(), 3);
    assert_eq!(m.to_string(), s);
}
