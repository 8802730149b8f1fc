use serde_json::Value;
use socketio_server::packet::{ConnectErrorPacket, Packet, PacketData, PacketError};

fn decode(s: &str) -> Result<Packet<Value>, PacketError> {
    Packet::decode(s.to_string())
}

#[test]
fn decode_event_default_namespace() {
    let p = decode("2[\"foo\"]").unwrap();
    assert_eq!(p.ns, "/");
    assert_eq!(p.inner, PacketData::Event("foo".to_string(), Value::Array(vec![])));
}

#[test]
fn decode_event_with_namespace() {
    let p = decode("2/chat,[\"event\",1,2]").unwrap();
    assert_eq!(p.ns, "/chat");
    assert_eq!(
        p.inner,
        PacketData::Event("event".to_string(), Value::Array(vec![Value::from(1), Value::from(2)]))
    );
}

#[test]
fn decode_event_object_is_invalid_event_name() {
    assert!(matches!(decode("2{}"), Err(PacketError::InvalidEventName)));
}

#[test]
fn decode_event_without_string_name() {
    assert!(matches!(decode("2[1,2]"), Err(PacketError::InvalidEventName)));
    assert!(matches!(decode("2[]"), Err(PacketError::InvalidEventName)));
}

#[test]
fn decode_event_bad_json() {
    assert!(matches!(decode("2[\"a\""), Err(PacketError::Serialize(_))));
}

#[test]
fn decode_unknown_type() {
    assert!(matches!(decode("9abc"), Err(PacketError::InvalidPacketType)));
    assert!(matches!(decode(""), Err(PacketError::InvalidPacketType)));
}

#[test]
fn decode_unsupported_kinds() {
    assert!(matches!(decode("3/chat,1[]"), Err(PacketError::Unimplemented)));
    assert!(matches!(decode("51-[\"a\",{\"_placeholder\":true,\"num\":0}]"), Err(PacketError::Unimplemented)));
    assert!(matches!(decode("6"), Err(PacketError::Unimplemented)));
}

#[test]
fn decode_skips_ack_id() {
    let p = decode("2/chat,12[\"a\",true]").unwrap();
    assert_eq!(p.ns, "/chat");
    assert_eq!(p.inner, PacketData::Event("a".to_string(), Value::Array(vec![Value::Bool(true)])));
}

#[test]
fn decode_adds_leading_slash() {
    let p = decode("1chat,").unwrap();
    assert_eq!(p.ns, "/chat");
    assert_eq!(p.inner, PacketData::Disconnect);
}

#[test]
fn decode_connect() {
    let p = decode("0").unwrap();
    assert_eq!(p.ns, "/");
    assert_eq!(p.inner, PacketData::Connect(None));
    let p = decode("0/admin,{\"token\":\"x\"}").unwrap();
    assert_eq!(p.ns, "/admin");
    match p.inner {
        PacketData::Connect(Some(v)) => assert_eq!(v.get("token").and_then(|t| t.as_str()), Some("x")),
        _ => panic!("expected a connect packet"),
    }
}

#[test]
fn decode_connect_error() {
    let p = decode("4{\"message\":\"nope\"}").unwrap();
    assert_eq!(p.inner, PacketData::ConnectError(ConnectErrorPacket { message: "nope".to_string() }));
    assert!(matches!(decode("4"), Err(PacketError::InvalidPacketType)));
    assert!(matches!(decode("4{\"other\":1}"), Err(PacketError::InvalidPacketType)));
}

#[test]
fn encode_event() {
    let p = Packet::event("/chat".to_string(), "msg".to_string(), Value::from(1));
    assert_eq!(p.encode().unwrap(), "2/chat,[\"msg\",1]");
    let p = Packet::event("/".to_string(), "m\"x".to_string(), Value::Array(vec![Value::from(1)]));
    assert_eq!(p.encode().unwrap(), "2[\"m\\\"x\",[1]]");
}

#[test]
fn encode_connect() {
    let p = Packet::connect("/".to_string(), 42);
    assert_eq!(p.encode().unwrap(), "0{\"sid\":\"42\"}");
    let p = Packet::connect("/admin".to_string(), -7);
    assert_eq!(p.encode().unwrap(), "0/admin,{\"sid\":\"-7\"}");
}

#[test]
fn encode_invalid_namespace() {
    let p = Packet::invalid_namespace("/x".to_string());
    assert_eq!(p.encode().unwrap(), "4/x,{\"message\":\"Invalid namespace\"}");
}

#[test]
fn encode_disconnect_and_empty_connect() {
    let p: Packet<Value> = Packet { inner: PacketData::Disconnect, ns: "".to_string() };
    assert_eq!(p.encode().unwrap(), "1");
    let p: Packet<Value> = Packet { inner: PacketData::Connect(None), ns: "/a".to_string() };
    assert_eq!(p.encode().unwrap(), "0/a,");
}

#[test]
fn encode_unsupported_kinds() {
    let p: Packet<Value> = Packet { inner: PacketData::Ack(3), ns: "/".to_string() };
    assert!(matches!(p.encode(), Err(PacketError::Unimplemented)));
    let p: Packet<Value> = Packet { inner: PacketData::BinaryAck(Value::Null, vec![]), ns: "/".to_string() };
    assert!(matches!(p.encode(), Err(PacketError::Unimplemented)));
}

#[test]
fn round_trip_without_payload() {
    for ns in ["/", "/admin", ""] {
        for inner in [PacketData::Disconnect, PacketData::Connect(None)] {
            let p: Packet<Value> = Packet { inner: inner.clone(), ns: ns.to_string() };
            let back = Packet::decode(p.encode().unwrap()).unwrap();
            assert_eq!(back.inner, inner);
            assert_eq!(back.ns, if ns.is_empty() { "/" } else { ns });
        }
    }
}

#[test]
fn round_trip_connect_error_and_connect() {
    let p = Packet::invalid_namespace("/room".to_string());
    let back = Packet::decode(p.encode().unwrap()).unwrap();
    assert_eq!(back.ns, "/room");
    assert_eq!(
        back.inner,
        PacketData::ConnectError(ConnectErrorPacket { message: "Invalid namespace".to_string() })
    );
    let p = Packet::connect("/room".to_string(), 5);
    let back = Packet::decode(p.encode().unwrap()).unwrap();
    assert_eq!(back.ns, "/room");
    match back.inner {
        PacketData::Connect(Some(v)) => assert_eq!(v.get("sid").and_then(|t| t.as_str()), Some("5")),
        _ => panic!("expected a connect packet"),
    }
}

#[test]
fn round_trip_event_keeps_name() {
    let p = Packet::event("/n".to_string(), "hello".to_string(), Value::from("x"));
    let back = Packet::decode(p.encode().unwrap()).unwrap();
    assert_eq!(back.ns, "/n");
    assert_eq!(back.inner, PacketData::Event("hello".to_string(), Value::Array(vec![Value::from("x")])));
}

#[test]
fn packet_indexes() {
    let kinds: Vec<PacketData<Value>> = vec![
        PacketData::Connect(None),
        PacketData::Disconnect,
        PacketData::Event("e".to_string(), Value::Null),
        PacketData::Ack(1),
        PacketData::ConnectError(ConnectErrorPacket { message: "m".to_string() }),
        PacketData::BinaryEvent("e".to_string(), Value::Null, vec![]),
        PacketData::BinaryAck(Value::Null, vec![]),
    ];
    for (i, k) in kinds.iter().enumerate() {
        assert_eq!(k.index() as usize, i);
    }
}

#[test]
fn decode_ack_id_without_namespace() {
    let p = decode("212[\"e\"]").unwrap();
    assert_eq!(p.ns, "/");
    assert_eq!(p.inner, PacketData::Event("e".to_string(), Value::Array(vec![])));
}

#[test]
fn decode_namespace_without_slash_and_ack_id() {
    let p = decode("2chat,12[\"e\",1]").unwrap();
    assert_eq!(p.ns, "/chat");
    assert_eq!(p.inner, PacketData::Event("e".to_string(), Value::Array(vec![Value::from(1)])));
}

#[test]
fn decode_namespace_without_comma() {
    let p = decode("2/chat[\"a\"]").unwrap();
    assert_eq!(p.ns, "/chat");
    assert_eq!(p.inner, PacketData::Event("a".to_string(), Value::Array(vec![])));
}

#[test]
fn encode_escapes_control_characters() {
    let p = Packet::invalid_namespace("/".to_string());
    assert_eq!(p.encode().unwrap(), "4{\"message\":\"Invalid namespace\"}");
    let p = Packet::event("/".to_string(), "a\u{1}\n\\".to_string(), Value::Null);
    assert_eq!(p.encode().unwrap(), "2[\"a\\u0001\\n\\\\\",null]");
}
