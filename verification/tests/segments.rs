use gocqhttp::message::{Message, MessageType};
use gocqhttp::message::cq_code::CQCode;
use gocqhttp::message::cq_code::code::{Face, Node, Record};

#[test]
fn test_face_to_string() {
    let t = Face { id: Some(123) };
    assert_eq!(t.to_string(), "[CQ:face,id=123]");
}

#[test]
fn test_face_from_string() {
    let t = Face::from_string("[CQ:face,id=123]".to_string()).unwrap();
    assert_eq!(t.id, Some(123));
}

#[test]
fn test_face_to_json() {
    let t = Face { id: Some(123) };
    assert_eq!(
        t.to_json().unwrap().as_str(),
        r#"{"type":"face","data":{"id":123}}"#
    );
}

#[test]
fn test_face_from_json() {
    let t = Face::from_json(r#"{"type":"face","data":{"id":123}}"#).unwrap();
    assert_eq!(t.id, Some(123));
}

#[test]
fn test_record_to_string0() {
    let t = Record {
        file: Some(r"file:///C:\\Users\Alice\Pictures\1.png".to_string()),
        magic: Some(1),
        url: Some(
            "https://www.baidu.com/img/PCtm_d9c8750bed0b3c7d089fa7d55720d6cf.png".to_string(),
        ),
        cache: Some(1),
        proxy: Some(1),
        timeout: Some(1),
    };
    assert_eq!(
        t.to_string(),
        r"[CQ:record,file=file:///C:\\Users\Alice\Pictures\1.png,magic=1,url=https://www.baidu.com/img/PCtm_d9c8750bed0b3c7d089fa7d55720d6cf.png,cache=1,proxy=1,timeout=1]"
    );
}

#[test]
fn test_record_to_string1() {
    let t = Record {
        file: Some(r"file:///C:\\Users\Alice\Pictures\1.png".to_string()),
        magic: Some(1),
        url: None,
        cache: None,
        proxy: None,
        timeout: None,
    };
    assert_eq!(
        t.to_string(),
        r"[CQ:record,file=file:///C:\\Users\Alice\Pictures\1.png,magic=1]"
    );
}

#[test]
fn test_record_to_string2() {
    let t = Record {
        file: None,
        magic: None,
        url: None,
        cache: None,
        proxy: None,
        timeout: None,
    };
    assert_eq!(t.to_string(), r"[CQ:record]");
}

#[test]
fn test_record_from_string0() {
    let t = Record::from_string(r"[CQ:record,file=file:///C:\\Users\Alice\Pictures\1.png,magic=1,url=https://www.baidu.com/img/PCtm_d9c8750bed0b3c7d089fa7d55720d6cf.png,cache=1,proxy=1,timeout=1]".to_string()).unwrap();
    assert_eq!(
        t.file,
        Some(r"file:///C:\\Users\Alice\Pictures\1.png".to_string())
    );
    assert_eq!(t.magic, Some(1));
    assert_eq!(
        t.url,
        Some("https://www.baidu.com/img/PCtm_d9c8750bed0b3c7d089fa7d55720d6cf.png".to_string())
    );
    assert_eq!(t.cache, Some(1));
    assert_eq!(t.proxy, Some(1));
    assert_eq!(t.timeout, Some(1));
}

#[test]
fn test_record_from_string1() {
    let t = Record::from_string(
        r"[CQ:record,file=file:///C:\\Users\Alice\Pictures\1.png,magic=1]".to_string(),
    )
    .unwrap();
    assert_eq!(
        t.file,
        Some(r"file:///C:\\Users\Alice\Pictures\1.png".to_string())
    );
    assert_eq!(t.magic, Some(1));
    assert_eq!(t.url, None);
    assert_eq!(t.cache, None);
    assert_eq!(t.proxy, None);
    assert_eq!(t.timeout, None);
}

#[test]
fn test_record_from_string2() {
    let t = Record::from_string(r"[CQ:record]".to_string()).unwrap();
    assert_eq!(t.file, None);
    assert_eq!(t.magic, None);
    assert_eq!(t.url, None);
    assert_eq!(t.cache, None);
    assert_eq!(t.proxy, None);
    assert_eq!(t.timeout, None);
}

#[test]
fn test_record_to_json0() {
    let t = Record {
        file: Some(r"file:///C:\Users\User\Pictures\1.png".to_string()),
        magic: Some(1),
        url: Some("https://www.baidu.com/img/1.png".to_string()),
        cache: Some(1),
        proxy: Some(1),
        timeout: Some(1),
    };
    assert_eq!(
        t.to_json().unwrap().as_str(),
        r#"{"type":"record","data":{"file":"file:///C:\\Users\\User\\Pictures\\1.png","magic":1,"url":"https://www.baidu.com/img/1.png","cache":1,"proxy":1,"timeout":1}}"#
    );
}

#[test]
fn test_record_to_json1() {
    let t = Record {
        file: Some(r"file:///C:\Users\User\Pictures\1.png".to_string()),
        magic: Some(1),
        url: None,
        cache: None,
        proxy: None,
        timeout: None,
    };
    assert_eq!(
        t.to_json().unwrap().as_str(),
        r#"{"type":"record","data":{"file":"file:///C:\\Users\\User\\Pictures\\1.png","magic":1}}"#
    );
}

#[test]
fn test_record_to_json2() {
    let t = Record {
        file: None,
        magic: None,
        url: None,
        cache: None,
        proxy: None,
        timeout: None,
    };
    assert_eq!(t.to_json().unwrap().as_str(), r#"{"type":"record","data":{}}"#);
}

#[test]
fn test_record_from_json0() {
    let t = Record::from_json(r#"{"type":"record","data":{"file":"file:///C:\\Users\\User\\Pictures\\1.png","magic":1,"url":"https://www.baidu.com/img/1.png","cache":1,"proxy":1,"timeout":1}}"#).unwrap();
    assert_eq!(
        t.file,
        Some(r"file:///C:\Users\User\Pictures\1.png".to_string())
    );
    assert_eq!(t.magic, Some(1));
    assert_eq!(t.url, Some("https://www.baidu.com/img/1.png".to_string()));
    assert_eq!(t.cache, Some(1));
    assert_eq!(t.proxy, Some(1));
    assert_eq!(t.timeout, Some(1));
}

#[test]
fn test_record_from_json1() {
    let t = Record::from_json(r#"{"type":"record","data":{"file":"file:///C:\\Users\\User\\Pictures\\1.png","magic":1}}"#).unwrap();
    assert_eq!(
        t.file,
        Some(r"file:///C:\Users\User\Pictures\1.png".to_string())
    );
    assert_eq!(t.magic, Some(1));
    assert_eq!(t.url, None);
    assert_eq!(t.cache, None);
    assert_eq!(t.proxy, None);
    assert_eq!(t.timeout, None);
}

#[test]
fn test_record_from_json2() {
    let t = Record::from_json(r#"{"type":"record","data":{}}"#).unwrap();
    assert_eq!(t.file, None);
    assert_eq!(t.magic, None);
    assert_eq!(t.url, None);
    assert_eq!(t.cache, None);
    assert_eq!(t.proxy, None);
    assert_eq!(t.timeout, None);
}

#[test]
fn test_node_to_json0() {
    let t = Node {
        id: Some(123),
        name: None,
        uin: None,
        content: None,
        seq: None,
    };
    assert_eq!(
        t.to_json().unwrap().as_str(),
        r#"{"type":"node","data":{"id":123}}"#
    );
}

#[test]
fn test_node_to_json1() {
    let t = Node {
        id: None,
        name: Some("hello".to_string()),
        uin: Some(456),
        content: Some(Message {
            messages: vec![Face { id: Some(123) }.to_json().unwrap()],
            kind: MessageType::Json,
        }),
        seq: Some(Message {
            messages: vec![Face { id: Some(456) }.to_json().unwrap()],
            kind: MessageType::Json,
        }),
    };
    assert_eq!(
        t.to_json().unwrap().as_str(),
        r#"{"type":"node","data":{"name":"hello","uin":456,"content":[{"type":"face","data":{"id":123}}],"seq":[{"type":"face","data":{"id":456}}]}}"#
    );
}

#[test]
fn test_node_to_json2() {
    let t = Node {
        id: None,
        name: Some("hello".to_string()),
        uin: Some(456),
        content: Some(Message {
            messages: vec![
                Face { id: Some(123) }.to_json().unwrap(),
                gocqhttp::message::cq_code::code::Text {
                    text: Some("world".to_string()),
                }
                .to_json()
                .unwrap(),
                Face { id: Some(456) }.to_json().unwrap(),
            ],
            kind: MessageType::Json,
        }),
        seq: None,
    };
    assert_eq!(
        t.to_json().unwrap().as_str(),
        r#"{"type":"node","data":{"name":"hello","uin":456,"content":[{"type":"face","data":{"id":123}},{"type":"text","data":{"text":"world"}},{"type":"face","data":{"id":456}}]}}"#
    );
}

#[test]
fn test_node_from_json0() {
    let t = Node::from_json(r#"{"type":"node","data":{"id":123}}"#).unwrap();
    assert_eq!(t.id, Some(123));
    assert_eq!(t.name, None);
    assert_eq!(t.uin, None);
    assert_eq!(t.content, None);
    assert_eq!(t.seq, None);
}
