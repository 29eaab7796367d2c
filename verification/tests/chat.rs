use webpg::chat::{
    chat_item_html, chat_message_json, chat_payload, received_chat_message, incoming_chat_body, joined_chunks, oldest_first, session_step, stream_text,
    ChatHub, ChatMessageRow, ClientChatMessage, SessionAction, SessionEvent, RECENT_CHAT_LIMIT,
};

fn row(id: i64, body: &str) -> ChatMessageRow {
    ChatMessageRow { id, body: body.to_string(), created_at: "2024-01-01 00:00:00".to_string() }
}

#[test]
fn blank_messages_are_dropped() {
    let m = ClientChatMessage { body: "  \n\t ".to_string() };
    assert_eq!(incoming_chat_body(&m), None);
    let m = ClientChatMessage { body: String::new() };
    assert_eq!(incoming_chat_body(&m), None);
}

#[test]
fn message_bodies_are_trimmed() {
    let m = ClientChatMessage { body: "  hello there \n".to_string() };
    assert_eq!(incoming_chat_body(&m), Some("hello there"));
}

#[test]
fn message_json_is_compact_object() {
    let r = ChatMessageRow {
        id: 7,
        body: "say \"hi\"\n".to_string(),
        created_at: "2024-05-01 12:00:00".to_string(),
    };
    assert_eq!(
        chat_message_json(&r),
        "{\"id\":7,\"body\":\"say \\\"hi\\\"\\n\",\"created_at\":\"2024-05-01 12:00:00\"}"
    );
}

#[test]
fn message_json_parses_back() {
    let r = ChatMessageRow {
        id: -3,
        body: "tab\there \\ \u{1} é".to_string(),
        created_at: "now".to_string(),
    };
    let text = chat_message_json(&r);
    let v: serde_json::Value = serde_json::from_str(&text).unwrap();
    assert_eq!(v["id"].as_i64(), Some(-3));
    assert_eq!(v["body"].as_str(), Some("tab\there \\ \u{1} é"));
    assert_eq!(v["created_at"].as_str(), Some("now"));
}

#[test]
fn payload_matches_serde_json() {
    for body in ["hello", "", "quote \" and \\ and \u{7f}", "ctl \u{0}\u{1f}\u{8}\u{c}\r"] {
        let mut object = serde_json::Map::new();
        object.insert("body".to_string(), serde_json::Value::String(body.to_string()));
        let expected = serde_json::to_string(&serde_json::Value::Object(object)).unwrap();
        assert_eq!(chat_payload(body), expected);
    }
}

#[test]
fn stream_text_joins_chunks() {
    let bytes = "héllo wörld".as_bytes().to_vec();
    let chunks = vec![bytes[..2].to_vec(), bytes[2..5].to_vec(), Vec::new(), bytes[5..].to_vec()];
    assert_eq!(stream_text(&chunks), "héllo wörld".to_string());
    assert_eq!(stream_text(&Vec::new()), String::new());
}

#[test]
fn chunks_join_in_order() {
    let chunks = vec![vec![0x68u8, 0xc3], Vec::new(), vec![0x28]];
    assert_eq!(joined_chunks(&chunks), vec![0x68u8, 0xc3, 0x28]);
    assert!(std::str::from_utf8(&joined_chunks(&chunks)).is_err());
}

#[test]
fn recent_messages_come_oldest_first() {
    let rows = vec![row(5, "e"), row(4, "d"), row(2, "b")];
    let ordered = oldest_first(rows);
    let ids: Vec<i64> = ordered.iter().map(|r| r.id).collect();
    assert_eq!(ids, vec![2, 4, 5]);
    assert_eq!(ordered[0].body, "b");
    assert!(oldest_first(Vec::new()).is_empty());
    assert_eq!(RECENT_CHAT_LIMIT, 100);
}

#[test]
fn session_decisions() {
    assert!(matches!(
        session_step(SessionEvent::Outbound(Some("x".to_string()))),
        SessionAction::Deliver(p) if p == "x"
    ));
    assert!(matches!(session_step(SessionEvent::Outbound(None)), SessionAction::Finish));
    assert!(matches!(session_step(SessionEvent::IncomingStream), SessionAction::ReadMessage));
    assert!(matches!(session_step(SessionEvent::IncomingEnded), SessionAction::Finish));
    assert!(matches!(session_step(SessionEvent::Failed), SessionAction::Abort));
}

#[test]
fn hub_numbers_sessions_and_broadcasts() {
    let mut hub = ChatHub::new();
    let (a, mut rx_a) = hub.register();
    let (b, mut rx_b) = hub.register();
    assert_eq!((a, b), (0, 1));
    hub.broadcast("first".to_string());
    assert_eq!(rx_a.try_recv().unwrap(), "first");
    assert_eq!(rx_b.try_recv().unwrap(), "first");
    hub.unregister(a);
    hub.broadcast("second".to_string());
    assert!(rx_a.try_recv().is_err());
    assert_eq!(rx_b.try_recv().unwrap(), "second");
    let (c, _rx_c) = hub.register();
    assert_eq!(c, 2);
}

#[test]
fn hub_broadcast_survives_closed_receivers() {
    let mut hub = ChatHub::new();
    let (_a, rx_a) = hub.register();
    let (_b, mut rx_b) = hub.register();
    drop(rx_a);
    hub.broadcast("still delivered".to_string());
    assert_eq!(rx_b.try_recv().unwrap(), "still delivered");
}

#[test]
fn payload_parses_back_to_body() {
    let body = "line one\nline \"two\" \\ \u{2}";
    let v: serde_json::Value = serde_json::from_str(&chat_payload(body)).unwrap();
    assert_eq!(v["body"].as_str(), Some(body));
    assert_eq!(chat_payload("hi"), "{\"body\":\"hi\"}");
}

#[test]
fn framed_json_has_no_raw_control_characters() {
    let r = ChatMessageRow { id: 1, body: "\u{0}\u{1f}\n\t".to_string(), created_at: "\r".to_string() };
    let text = chat_message_json(&r);
    assert!(text.chars().all(|c| c as u32 >= 0x20));
    assert_eq!(text, "{\"id\":1,\"body\":\"\\u0000\\u001f\\n\\t\",\"created_at\":\"\\r\"}");
}

#[test]
fn ordering_twice_restores_rows() {
    let rows = vec![row(3, "c"), row(2, "b"), row(1, "a")];
    let back = oldest_first(oldest_first(rows));
    let ids: Vec<i64> = back.iter().map(|r| r.id).collect();
    assert_eq!(ids, vec![3, 2, 1]);
}

#[test]
fn json_quote_writes_literals() {
    assert_eq!(webpg::json::json_quote("a\"b"), "\"a\\\"b\"");
    assert_eq!(webpg::json::json_quote(""), "\"\"");
    assert_eq!(webpg::json::json_quote("\u{7f}é"), "\"\u{7f}é\"");
}

#[test]
fn deliveries_reach_each_session_once() {
    let mut hub = ChatHub::default();
    let (a, _rx_a) = hub.register();
    let (b, _rx_b) = hub.register();
    let (c, _rx_c) = hub.register();
    let mut pairs = hub.deliveries(&"hello".to_string());
    pairs.sort();
    assert_eq!(
        pairs,
        vec![(a, "hello".to_string()), (b, "hello".to_string()), (c, "hello".to_string())]
    );
    hub.unregister(b);
    let mut pairs = hub.deliveries(&"again".to_string());
    pairs.sort();
    assert_eq!(pairs, vec![(a, "again".to_string()), (c, "again".to_string())]);
    assert!(ChatHub::default().deliveries(&"none".to_string()).is_empty());
}

#[test]
fn registered_receiver_gets_its_session_messages() {
    let mut hub = ChatHub::default();
    let (_a, mut rx_a) = hub.register();
    hub.broadcast("one".to_string());
    assert_eq!(rx_a.try_recv().ok(), Some("one".to_string()));
    assert!(rx_a.try_recv().is_err());
}

#[test]
fn broadcast_text_reads_back_as_the_message() {
    let r = ChatMessageRow { id: -9, body: "quote \" and \\ and \u{1}".to_string(), created_at: "now\n".to_string() };
    let text = chat_message_json(&r);
    let back = match received_chat_message(&text) {
        Some(m) => m,
        None => panic!("did not read back"),
    };
    assert_eq!((back.id, back.body, back.created_at), (r.id, r.body, r.created_at));
}

#[test]
fn malformed_broadcasts_are_refused() {
    assert!(received_chat_message("not json").is_none());
    assert!(received_chat_message("{\"id\":\"1\",\"body\":\"a\",\"created_at\":\"b\"}").is_none());
    assert!(received_chat_message("{\"id\":1,\"body\":\"a\"}").is_none());
    let m = received_chat_message("{ \"created_at\": \"t\", \"id\": 5, \"body\": \"x\", \"extra\": 1 }").unwrap();
    assert_eq!((m.id, m.body.as_str(), m.created_at.as_str()), (5, "x", "t"));
}

#[test]
fn chat_item_escapes_the_message() {
    let r = ChatMessageRow { id: 12, body: "<b>hi</b>".to_string(), created_at: "a&b".to_string() };
    assert_eq!(
        chat_item_html(&r),
        "<li data-id=\"12\"><time>a&amp;b</time> &lt;b&gt;hi&lt;/b&gt;</li>"
    );
}
