use crate::frame::{decode_frame, encode_frame, frame_parts, frame_round_trip, frame_text, is_ns_char};
use crate::json::{
    array_items, array_value, field, field_value, into_array, into_string, json_parsed, json_quoted,
    json_written, parse_value, quote, string_text, value_text,
};
use crate::text::{chars_of, decimal, decimal_text, push_all, string_of};
use vstd::prelude::*;

verus! {

/// A protocol message: its data and the namespace it belongs to.
#[derive(Debug, Clone, PartialEq)]
pub struct Packet<T> {
    pub inner: PacketData<T>,
    pub ns: String,
}

/// The kinds of message, in the order of their wire digits `0` to `6`.
#[derive(Debug, Clone, PartialEq)]
pub enum PacketData<T> {
    Connect(Option<T>),
    Disconnect,
    Event(String, T),
    Ack(i64),
    ConnectError(ConnectErrorPacket),
    BinaryEvent(String, T, Vec<Vec<u8>>),
    BinaryAck(T, Vec<Vec<u8>>),
}

/// The payload of a connection answer: the id given to the socket.
#[derive(Debug, Clone, PartialEq)]
pub struct ConnectPacket {
    pub sid: String,
}

/// The payload of a refused connection.
#[derive(Debug, Clone, PartialEq)]
pub struct ConnectErrorPacket {
    pub message: String,
}

/// Why a packet could not be encoded or decoded.
#[derive(Debug)]
pub enum PacketError {
    /// The type digit is missing or unknown, or a connect error has no message.
    InvalidPacketType,
    /// An event payload is not an array that starts with a string.
    InvalidEventName,
    /// The packet kind is not supported by this codec.
    Unimplemented,
    /// The JSON payload could not be read or written.
    Serialize(serde_json::Error),
}

/// `"message"` as characters.
pub open spec fn message_key() -> Seq<char> {
    seq!['m', 'e', 's', 's', 'a', 'g', 'e']
}

/// `"sid"` as characters.
pub open spec fn sid_key() -> Seq<char> {
    seq!['s', 'i', 'd']
}

/// The JSON object with the one field `key`, whose value has the JSON text `value`.
pub open spec fn object_text(key: Seq<char>, value: Seq<char>) -> Seq<char> {
    seq!['{', '"'] + key + seq!['"', ':'] + value + seq!['}']
}

/// The JSON array of the event name (as JSON text) and the payload (as JSON text).
pub open spec fn event_text(name: Seq<char>, data: Seq<char>) -> Seq<char> {
    seq!['['] + name + seq![','] + data + seq![']']
}

/// Writes `object_text(key, value)`.
pub fn object_body(key: &Vec<char>, value: &Vec<char>) -> (r: Vec<char>)
    ensures
        r@ == object_text(key@, value@),
{
    let mut r: Vec<char> = Vec::new();
    r.push('{');
    r.push('"');
    push_all(&mut r, key);
    r.push('"');
    r.push(':');
    push_all(&mut r, value);
    r.push('}');
    proof {
        assert(r@ =~= object_text(key@, value@));
    }
    r
}

/// Writes `event_text(name, data)`.
pub fn event_body(name: &Vec<char>, data: &Vec<char>) -> (r: Vec<char>)
    ensures
        r@ == event_text(name@, data@),
{
    let mut r: Vec<char> = Vec::new();
    r.push('[');
    push_all(&mut r, name);
    r.push(',');
    push_all(&mut r, data);
    r.push(']');
    proof {
        assert(r@ =~= event_text(name@, data@));
    }
    r
}

/// The JSON text of `{"<key>": "<value>"}`.
fn string_object(key: &Vec<char>, value: &String) -> (r: Vec<char>)
    ensures
        r@ == object_text(key@, json_quoted(value@)),
{
    let q = quote(value.as_str()).unwrap();
    let qc = chars_of(q.as_str());
    object_body(key, &qc)
}

/// A payload that can be written as JSON text.
pub trait JsonPayload {
    /// The JSON text of the payload.
    spec fn json_spec(&self) -> Seq<char>;

    fn json_text(&self) -> (r: String)
        ensures
            r@ == self.json_spec(),
    ;
}

impl JsonPayload for serde_json::Value {
    open spec fn json_spec(&self) -> Seq<char> {
        json_written(*self)
    }

    fn json_text(&self) -> (r: String) {
        value_text(self).unwrap()
    }
}

impl JsonPayload for ConnectPacket {
    open spec fn json_spec(&self) -> Seq<char> {
        object_text(sid_key(), json_quoted(self.sid@))
    }

    fn json_text(&self) -> (r: String) {
        let key = vec!['s', 'i', 'd'];
        proof {
            assert(key@ =~= sid_key());
        }
        string_of(&string_object(&key, &self.sid))
    }
}

impl JsonPayload for () {
    open spec fn json_spec(&self) -> Seq<char> {
        seq!['n', 'u', 'l', 'l']
    }

    fn json_text(&self) -> (r: String) {
        let null = vec!['n', 'u', 'l', 'l'];
        proof {
            assert(null@ =~= seq!['n', 'u', 'l', 'l']);
        }
        string_of(&null)
    }
}

impl<T> PacketData<T> {
    /// The wire digit of the kind.
    pub open spec fn spec_index(&self) -> u8 {
        match self {
            PacketData::Connect(_) => 0,
            PacketData::Disconnect => 1,
            PacketData::Event(_, _) => 2,
            PacketData::Ack(_) => 3,
            PacketData::ConnectError(_) => 4,
            PacketData::BinaryEvent(_, _, _) => 5,
            PacketData::BinaryAck(_, _) => 6,
        }
    }

    /// The wire digit of the kind, `0` to `6`.
    pub fn index(&self) -> (r: u8)
        ensures
            r == self.spec_index(),
            r < 7,
    {
        match self {
            PacketData::Connect(_) => 0,
            PacketData::Disconnect => 1,
            PacketData::Event(_, _) => 2,
            PacketData::Ack(_) => 3,
            PacketData::ConnectError(_) => 4,
            PacketData::BinaryEvent(_, _, _) => 5,
            PacketData::BinaryAck(_, _) => 6,
        }
    }
}

impl Packet<ConnectPacket> {
    /// The answer to a connection on `ns`, giving the socket the id `sid`.
    pub fn connect(ns: String, sid: i64) -> (r: Self)
        ensures
            r.ns == ns,
            match r.inner {
                PacketData::Connect(Some(c)) => c.sid@ == decimal_text(sid as int),
                _ => false,
            },
    {
        Packet { inner: PacketData::Connect(Some(ConnectPacket { sid: decimal(sid) })), ns }
    }
}

impl Packet<()> {
    /// The refusal of a connection to the unknown namespace `ns`.
    pub fn invalid_namespace(ns: String) -> (r: Self)
        ensures
            r.ns == ns,
            match r.inner {
                PacketData::ConnectError(c) => c.message@ == "Invalid namespace"@,
                _ => false,
            },
    {
        Packet {
            inner: PacketData::ConnectError(ConnectErrorPacket { message: "Invalid namespace".to_owned() }),
            ns,
        }
    }
}

impl<T> Packet<T> {
    /// The event `e` with payload `data` on `ns`.
    pub fn event(ns: String, e: String, data: T) -> (r: Self)
        ensures
            r.ns == ns,
            r.inner == PacketData::Event(e, data),
    {
        Packet { inner: PacketData::Event(e, data), ns }
    }
}


/// What encoding `p` gives: the type digit, the namespace unless it is empty or `/`,
/// then the payload text; acks and binary packets are not supported.
pub open spec fn encoded<T: JsonPayload>(p: &Packet<T>, r: Result<String, PacketError>) -> bool {
    let ns = p.ns@;
    match p.inner {
        PacketData::Connect(None) => r is Ok && r->Ok_0@ == frame_text(0, ns, Seq::empty()),
        PacketData::Connect(Some(d)) => r is Ok && r->Ok_0@ == frame_text(0, ns, d.json_spec()),
        PacketData::Disconnect => r is Ok && r->Ok_0@ == frame_text(1, ns, Seq::empty()),
        PacketData::Event(e, d) => r is Ok && r->Ok_0@ == frame_text(2, ns, event_text(json_quoted(e@), d.json_spec())),
        PacketData::ConnectError(c) => r is Ok && r->Ok_0@ == frame_text(4, ns, object_text(message_key(), json_quoted(c.message@))),
        _ => r is Err && r->Err_0 is Unimplemented,
    }
}

impl<T: JsonPayload> Packet<T> {
    /// Writes the packet as a text frame. Acks and binary packets are not supported.
    pub fn encode(&self) -> (r: Result<String, PacketError>)
        ensures
            encoded(self, r),
    {
        let index = self.inner.index();
        let body: Vec<char> = match &self.inner {
            PacketData::Connect(None) => Vec::new(),
            PacketData::Connect(Some(data)) => chars_of(data.json_text().as_str()),
            PacketData::Disconnect => Vec::new(),
            PacketData::Event(e, data) => {
                let name = quote(e.as_str()).unwrap();
                let text = data.json_text();
                event_body(&chars_of(name.as_str()), &chars_of(text.as_str()))
            },
            PacketData::ConnectError(c) => {
                let key = vec!['m', 'e', 's', 's', 'a', 'g', 'e'];
                proof {
                    assert(key@ =~= message_key());
                }
                string_object(&key, &c.message)
            },
            _ => {
                return Err(PacketError::Unimplemented);
            },
        };
        let ns = chars_of(self.ns.as_str());
        let frame = encode_frame(index, &ns, &body);
        Ok(string_of(&frame))
    }
}

/// The event name and payload items that a JSON value holds: it must be an array
/// whose first item is a string.
pub open spec fn event_parts(v: serde_json::Value) -> Option<(Seq<char>, Seq<serde_json::Value>)> {
    match array_items(v) {
        Some(items) => if items.len() > 0 && string_text(items[0]) is Some {
            Some((string_text(items[0])->Some_0, items.drop_first()))
        } else {
            None
        },
        None => None,
    }
}

/// The message of a refused connection that a JSON value holds: its `message` field,
/// which must be a string.
pub open spec fn connect_error_message(v: serde_json::Value) -> Option<Seq<char>> {
    match field_value(v, message_key()) {
        Some(m) => string_text(m),
        None => None,
    }
}

/// What decoding the text `s` gives.
pub open spec fn decoded(s: Seq<char>, r: Result<Packet<serde_json::Value>, PacketError>) -> bool {
    match frame_parts(s) {
        None => r is Err && r->Err_0 is InvalidPacketType,
        Some(parts) => {
            let (k, ns, body) = parts;
            if k == '0' && body.len() == 0 {
                r is Ok && r->Ok_0.ns@ == ns && r->Ok_0.inner is Connect && r->Ok_0.inner->Connect_0 is None
            } else if k == '0' {
                match json_parsed(body) {
                    None => r is Err && r->Err_0 is Serialize,
                    Some(v) => r is Ok && r->Ok_0.ns@ == ns && r->Ok_0.inner is Connect
                        && r->Ok_0.inner->Connect_0 == Some(v),
                }
            } else if k == '1' {
                r is Ok && r->Ok_0.ns@ == ns && r->Ok_0.inner is Disconnect
            } else if k == '2' {
                match json_parsed(body) {
                    None => r is Err && r->Err_0 is Serialize,
                    Some(v) => match event_parts(v) {
                        None => r is Err && r->Err_0 is InvalidEventName,
                        Some(ev) => r is Ok && r->Ok_0.ns@ == ns && r->Ok_0.inner is Event
                            && r->Ok_0.inner->Event_0@ == ev.0 && array_items(r->Ok_0.inner->Event_1) == Some(ev.1),
                    },
                }
            } else if k == '4' && body.len() == 0 {
                r is Err && r->Err_0 is InvalidPacketType
            } else if k == '4' {
                match json_parsed(body) {
                    None => r is Err && r->Err_0 is Serialize,
                    Some(v) => match connect_error_message(v) {
                        None => r is Err && r->Err_0 is InvalidPacketType,
                        Some(m) => r is Ok && r->Ok_0.ns@ == ns && r->Ok_0.inner is ConnectError
                            && r->Ok_0.inner->ConnectError_0.message@ == m,
                    },
                }
            } else if k == '3' || k == '5' || k == '6' {
                r is Err && r->Err_0 is Unimplemented
            } else {
                r is Err && r->Err_0 is InvalidPacketType
            }
        },
    }
}

/// Splits a JSON value into an event name and payload: the value must be an array
/// whose first item is a string; the other items form the payload array.
pub fn event_from_value(v: serde_json::Value) -> (r: Result<(String, serde_json::Value), PacketError>)
    ensures
        (r is Ok) == (event_parts(v) is Some),
        r is Ok ==> r->Ok_0.0@ == event_parts(v)->Some_0.0 && array_items(r->Ok_0.1) == Some(
            event_parts(v)->Some_0.1,
        ),
        r is Err ==> r->Err_0 is InvalidEventName,
{
    let ghost gv = v;
    let mut items = match into_array(v) {
        Ok(items) => items,
        Err(_) => {
            return Err(PacketError::InvalidEventName);
        },
    };
    if items.len() == 0 {
        return Err(PacketError::InvalidEventName);
    }
    let ghost all = items@;
    let first = items.remove(0);
    proof {
        assert(items@ == all.drop_first());
    }
    match into_string(first) {
        Ok(name) => Ok((name, array_value(items))),
        Err(_) => Err(PacketError::InvalidEventName),
    }
}

/// Reads an event payload `["<name>", ...args]`.
fn deserialize_event_packet(data: &str) -> (r: Result<(String, serde_json::Value), PacketError>)
    ensures
        json_parsed(data@) is None ==> r is Err && r->Err_0 is Serialize,
        json_parsed(data@) is Some ==> {
            let v = json_parsed(data@)->Some_0;
            &&& (r is Ok) == (event_parts(v) is Some)
            &&& r is Ok ==> r->Ok_0.0@ == event_parts(v)->Some_0.0 && array_items(r->Ok_0.1) == Some(
                event_parts(v)->Some_0.1,
            )
            &&& r is Err ==> r->Err_0 is InvalidEventName
        },
{
    match parse_value(data) {
        Ok(v) => event_from_value(v),
        Err(e) => Err(PacketError::Serialize(e)),
    }
}

/// Reads a JSON payload; an empty one is absent.
fn deserialize_packet(data: &str) -> (r: Result<Option<serde_json::Value>, PacketError>)
    ensures
        data@.len() == 0 ==> r is Ok && r->Ok_0 is None,
        data@.len() > 0 ==> match json_parsed(data@) {
            None => r is Err && r->Err_0 is Serialize,
            Some(v) => r is Ok && r->Ok_0 == Some(v),
        },
{
    if data.is_empty() {
        Ok(None)
    } else {
        match parse_value(data) {
            Ok(v) => Ok(Some(v)),
            Err(e) => Err(PacketError::Serialize(e)),
        }
    }
}

/// Reads the payload of a refused connection: an object with a string `message`.
pub fn connect_error_from_value(v: &serde_json::Value) -> (r: Result<ConnectErrorPacket, PacketError>)
    ensures
        (r is Ok) == (connect_error_message(*v) is Some),
        r is Ok ==> r->Ok_0.message@ == connect_error_message(*v)->Some_0,
        r is Err ==> r->Err_0 is InvalidPacketType,
{
    proof {
        reveal_strlit("message");
        assert("message"@ =~= message_key());
    }
    match field(v, "message") {
        Some(m) => match into_string(m) {
            Ok(message) => Ok(ConnectErrorPacket { message }),
            Err(_) => Err(PacketError::InvalidPacketType),
        },
        None => Err(PacketError::InvalidPacketType),
    }
}

impl Packet<serde_json::Value> {
    /// Reads a text frame `<type>[<count>-][<namespace>,][<ack id>]<payload>`.
    /// Acks and binary packets are not supported; the count and the ack id are skipped.
    pub fn decode(value: String) -> (r: Result<Packet<serde_json::Value>, PacketError>)
        ensures
            decoded(value@, r),
    {
        let chars = chars_of(value.as_str());
        let frame = match decode_frame(&chars) {
            Some(f) => f,
            None => {
                return Err(PacketError::InvalidPacketType);
            },
        };
        let ns = string_of(&frame.ns);
        let data = string_of(&frame.body);
        let inner = match frame.kind {
            '0' => match deserialize_packet(data.as_str()) {
                Ok(d) => PacketData::Connect(d),
                Err(e) => {
                    return Err(e);
                },
            },
            '1' => PacketData::Disconnect,
            '2' => match deserialize_event_packet(data.as_str()) {
                Ok((event, payload)) => PacketData::Event(event, payload),
                Err(e) => {
                    return Err(e);
                },
            },
            '4' => match deserialize_packet(data.as_str()) {
                Ok(Some(v)) => match connect_error_from_value(&v) {
                    Ok(c) => PacketData::ConnectError(c),
                    Err(e) => {
                        return Err(e);
                    },
                },
                Ok(None) => {
                    return Err(PacketError::InvalidPacketType);
                },
                Err(e) => {
                    return Err(e);
                },
            },
            '3' | '5' | '6' => {
                return Err(PacketError::Unimplemented);
            },
            _ => {
                return Err(PacketError::InvalidPacketType);
            },
        };
        Ok(Packet { inner, ns })
    }
}

/// The namespace that a frame carries back: `/` for an empty one.
pub open spec fn wire_ns(ns: Seq<char>) -> Seq<char> {
    if ns.len() == 0 { seq!['/'] } else { ns }
}

/// Decoding the text that encoding wrote gives back a packet of the same kind on the
/// same namespace (`/` for an empty one), for a namespace that starts with `/` and
/// holds no `,`, `{`, `[` or digit; a connect without data and a disconnect come back
/// whole, and an event or a refused connection comes back as such whenever its JSON
/// payload is read.
pub proof fn packet_round_trip<T: JsonPayload>(
    p: &Packet<T>,
    e: Result<String, PacketError>,
    d: Result<Packet<serde_json::Value>, PacketError>,
)
    requires
        p.ns@.len() == 0 || p.ns@[0] == '/',
        forall|k: int| 0 <= k < p.ns@.len() ==> is_ns_char(#[trigger] p.ns@[k]),
        encoded(p, e),
        e is Ok,
        decoded(e->Ok_0@, d),
    ensures
        p.inner is Disconnect ==> d is Ok && d->Ok_0.ns@ == wire_ns(p.ns@) && d->Ok_0.inner is Disconnect,
        p.inner is Connect && p.inner->Connect_0 is None ==> d is Ok && d->Ok_0.ns@ == wire_ns(p.ns@)
            && d->Ok_0.inner is Connect && d->Ok_0.inner->Connect_0 is None,
        p.inner is Event && d is Ok ==> d->Ok_0.ns@ == wire_ns(p.ns@) && d->Ok_0.inner is Event,
        p.inner is ConnectError && d is Ok ==> d->Ok_0.ns@ == wire_ns(p.ns@) && d->Ok_0.inner is ConnectError,
{
    let ns = p.ns@;
    match p.inner {
        PacketData::Connect(None) => {
            frame_round_trip(0, ns, Seq::empty());
        },
        PacketData::Disconnect => {
            frame_round_trip(1, ns, Seq::empty());
        },
        PacketData::Event(ev, data) => {
            frame_round_trip(2, ns, event_text(json_quoted(ev@), data.json_spec()));
        },
        PacketData::ConnectError(c) => {
            frame_round_trip(4, ns, object_text(message_key(), json_quoted(c.message@)));
        },
        _ => {},
    }
}

} // verus!
