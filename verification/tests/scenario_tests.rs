use bytes::{Bytes, BytesMut};
use rustis::connection::{fatal_reply, ReorderBuffer};
use rustis::handler::CommandHandler;
use rustis::kv::KvStore;
use rustis::message::ResponseValue;
use rustis::parser::{parse, BufParseError};
use rustis::router::{route_message, RouteDecision};

fn bulk(s: &[u8]) -> ResponseValue {
    ResponseValue::BulkString(Some(Bytes::copy_from_slice(s)))
}

fn wire(v: &ResponseValue) -> Vec<u8> {
    let mut out = BytesMut::new();
    v.serialize(&mut out);
    out.to_vec()
}

fn round_trip(v: &ResponseValue) {
    let encoded = wire(v);
    let mut buf = BytesMut::from(&encoded[..]);
    let parsed = parse(&mut buf).expect("a whole serialized frame must parse");
    assert_eq!(&parsed, v);
    assert!(buf.is_empty(), "exactly the frame's bytes must be consumed");
}

// Round trips: parse(serialize(v)) yields v and consumes the whole frame.
#[test]
fn round_trip_each_kind() {
    round_trip(&ResponseValue::SimpleString(Bytes::from("OK")));
    round_trip(&ResponseValue::SimpleString(Bytes::from("")));
    round_trip(&ResponseValue::Error(Bytes::from("ERR boom")));
    round_trip(&ResponseValue::Integer(0));
    round_trip(&ResponseValue::Integer(1000));
    round_trip(&ResponseValue::Integer(-42));
    round_trip(&ResponseValue::Integer(i64::MAX));
    round_trip(&ResponseValue::Integer(i64::MIN));
    round_trip(&ResponseValue::BulkString(None));
    round_trip(&bulk(b""));
    round_trip(&bulk(b"hello"));
    round_trip(&ResponseValue::Array(None));
    round_trip(&ResponseValue::Array(Some(vec![])));
}

// Bulk payloads holding CR, LF and zero bytes ride the wire unchanged.
#[test]
fn round_trip_binary_bulk() {
    round_trip(&bulk(b"\r\n"));
    round_trip(&bulk(b"\x00\x01\xff\r\n\x00"));
    round_trip(&bulk(b"ends with cr\r"));
}

// Arrays nested to several levels round-trip.
#[test]
fn round_trip_nested_arrays() {
    let inner = ResponseValue::Array(Some(vec![
        ResponseValue::Integer(1),
        bulk(b"x"),
        ResponseValue::Array(None),
    ]));
    let middle = ResponseValue::Array(Some(vec![
        inner,
        ResponseValue::Array(Some(vec![])),
        ResponseValue::BulkString(None),
    ]));
    let outer = ResponseValue::Array(Some(vec![
        middle,
        ResponseValue::SimpleString(Bytes::from("deep")),
    ]));
    round_trip(&outer);
}

// Every strict prefix of a frame parses as Incomplete, buffer untouched.
#[test]
fn every_strict_prefix_is_incomplete() {
    let samples = vec![
        ResponseValue::SimpleString(Bytes::from("OK")),
        ResponseValue::Integer(-1000),
        bulk(b"hello\r\nthere"),
        ResponseValue::Array(Some(vec![bulk(b"GET"), bulk(b"k")])),
        ResponseValue::Array(None),
    ];
    for v in samples {
        let encoded = wire(&v);
        for cut in 0..encoded.len() {
            let mut buf = BytesMut::from(&encoded[..cut]);
            let r = parse(&mut buf);
            assert!(
                matches!(r, Err(BufParseError::Incomplete)),
                "prefix of {} bytes of {:?} must be incomplete",
                cut,
                encoded
            );
            assert_eq!(&buf[..], &encoded[..cut], "buffer must be unchanged");
        }
    }
}

// A first byte outside the five markers and the ASCII letters is rejected.
#[test]
fn invalid_first_bytes_are_rejected() {
    for b in [b'?', b'!', b'0', b'9', b' ', b'\r', 0u8, 200u8] {
        let mut input = vec![b];
        input.extend_from_slice(b"bad\r\n");
        let mut buf = BytesMut::from(&input[..]);
        match parse(&mut buf) {
            Err(BufParseError::InvalidFirstByte(got)) => assert_eq!(got, b),
            other => panic!("byte {} should be invalid, got {:?}", b, other),
        }
        assert_eq!(&buf[..], &input[..]);
    }
}

// Inline PING: the legacy line form parses to a one-word command.
#[test]
fn inline_ping_gets_pong() {
    let mut buf = BytesMut::from(&b"PING\r\n"[..]);
    let frame = parse(&mut buf).unwrap();
    assert!(buf.is_empty());
    match route_message(4, frame, 1) {
        RouteDecision::Reply(msg) => {
            assert_eq!(wire(&msg.response_value), b"+PONG\r\n");
        }
        RouteDecision::Dispatch(_, _) => panic!("PING must be intercepted"),
    }
}

// Inline commands split on blanks into words.
#[test]
fn inline_words_split() {
    let mut buf = BytesMut::from(&b"set  k1\tv1\r\n"[..]);
    let frame = parse(&mut buf).unwrap();
    match frame {
        ResponseValue::Array(Some(items)) => {
            assert_eq!(items.len(), 3);
            assert_eq!(items[0], bulk(b"set"));
            assert_eq!(items[1], bulk(b"k1"));
            assert_eq!(items[2], bulk(b"v1"));
        }
        other => panic!("inline must become an array, got {:?}", other),
    }
}

fn run(handler: &mut CommandHandler, input: &[u8]) -> Vec<u8> {
    let mut buf = BytesMut::from(input);
    let mut out = BytesMut::new();
    loop {
        match parse(&mut buf) {
            Ok(frame) => {
                let reply = handler.process_command(frame);
                reply.serialize(&mut out);
            }
            Err(BufParseError::Incomplete) => break,
            Err(e) => panic!("unexpected parse error {:?}", e),
        }
    }
    out.to_vec()
}

// SET then GET.
#[test]
fn scenario_set_then_get() {
    let mut h = CommandHandler::new(KvStore::new());
    let out = run(
        &mut h,
        b"*3\r\n$3\r\nSET\r\n$3\r\nkey\r\n$5\r\nhello\r\n*2\r\n$3\r\nGET\r\n$3\r\nkey\r\n",
    );
    assert_eq!(out, b"+OK\r\n$5\r\nhello\r\n");
}

// LPUSH then LRANGE.
#[test]
fn scenario_lpush_then_lrange() {
    let mut h = CommandHandler::new(KvStore::new());
    let out = run(
        &mut h,
        b"*4\r\n$5\r\nLPUSH\r\n$1\r\nL\r\n$1\r\na\r\n$1\r\nb\r\n*4\r\n$6\r\nLRANGE\r\n$1\r\nL\r\n$1\r\n0\r\n$2\r\n-1\r\n",
    );
    assert_eq!(out, b":2\r\n*2\r\n$1\r\nb\r\n$1\r\na\r\n");
}

// SET then LPUSH on the same key is a recoverable type error.
#[test]
fn scenario_wrongtype() {
    let mut h = CommandHandler::new(KvStore::new());
    let out = run(
        &mut h,
        b"*3\r\n$3\r\nSET\r\n$1\r\nk\r\n$1\r\nv\r\n*3\r\n$5\r\nLPUSH\r\n$1\r\nk\r\n$1\r\nx\r\n",
    );
    assert_eq!(
        out,
        &b"+OK\r\n-WRONGTYPE Operation against a key holding the wrong kind of value\r\n"[..]
    );
}

// A protocol error yields one error reply naming the offending byte.
#[test]
fn scenario_protocol_error() {
    let mut buf = BytesMut::from(&b"?bad\r\n"[..]);
    let err = parse(&mut buf).unwrap_err();
    assert!(matches!(err, BufParseError::InvalidFirstByte(63)));
    let msg = fatal_reply(&err, 1).expect("a fatal error must be answered");
    assert_eq!(wire(&msg.response_value), b"-ERR invalid first byte: 63\r\n");
    assert!(fatal_reply(&BufParseError::Incomplete, 1).is_none());
}

// Three pipelined SETs on different keys come back in the sent order,
// whatever shards serve them and however late a slow shard answers.
#[test]
fn scenario_pipelined_order_across_shards() {
    let shards = 3;
    let mut handlers: Vec<CommandHandler> = (0..shards)
        .map(|_| CommandHandler::new(KvStore::new()))
        .collect();
    let mut buf = BytesMut::from(
        &b"*3\r\n$3\r\nSET\r\n$2\r\nk1\r\n$1\r\na\r\n*3\r\n$3\r\nSET\r\n$2\r\nk2\r\n$1\r\nb\r\n*3\r\n$3\r\nSET\r\n$2\r\nk3\r\n$1\r\nc\r\n"[..],
    );

    let mut seq: u64 = 0;
    let mut replies = Vec::new();
    loop {
        match parse(&mut buf) {
            Ok(frame) => {
                seq += 1;
                match route_message(shards, frame, seq) {
                    RouteDecision::Dispatch(shard, msg) => {
                        let reply = handlers[shard].process_command(msg.response_value);
                        replies.push((msg.seq, reply));
                    }
                    RouteDecision::Reply(msg) => {
                        replies.push((msg.seq, msg.response_value));
                    }
                }
            }
            Err(BufParseError::Incomplete) => break,
            Err(e) => panic!("unexpected parse error {:?}", e),
        }
    }
    assert_eq!(replies.len(), 3);

    // A slow shard: replies arrive in reverse order.
    replies.reverse();
    let mut rb = ReorderBuffer::new();
    let mut out = BytesMut::new();
    for (s, v) in replies {
        rb.insert(rustis::message::ResponseMessage {
            seq: s,
            response_value: v,
        });
        while let Some(ready) = rb.pop_ready() {
            ready.serialize(&mut out);
        }
    }
    assert_eq!(out.to_vec(), b"+OK\r\n+OK\r\n+OK\r\n");
}

// The reorder buffer never releases ahead of the owed sequence.
#[test]
fn reorder_waits_for_the_gap() {
    let mut rb = ReorderBuffer::new();
    rb.insert(rustis::message::ResponseMessage {
        seq: 2,
        response_value: ResponseValue::Integer(2),
    });
    assert!(rb.pop_ready().is_none());
    rb.insert(rustis::message::ResponseMessage {
        seq: 3,
        response_value: ResponseValue::Integer(3),
    });
    assert!(rb.pop_ready().is_none());
    rb.insert(rustis::message::ResponseMessage {
        seq: 1,
        response_value: ResponseValue::Integer(1),
    });
    assert_eq!(rb.pop_ready(), Some(ResponseValue::Integer(1)));
    assert_eq!(rb.pop_ready(), Some(ResponseValue::Integer(2)));
    assert_eq!(rb.pop_ready(), Some(ResponseValue::Integer(3)));
    assert!(rb.pop_ready().is_none());
}

// The same key always reaches the same shard within a process.
#[test]
fn routing_is_stable_per_key() {
    let frame = || ResponseValue::Array(Some(vec![bulk(b"GET"), bulk(b"stable-key")]));
    let first = match route_message(8, frame(), 1) {
        RouteDecision::Dispatch(shard, _) => shard,
        _ => panic!("GET must be dispatched"),
    };
    for s in 2..10u64 {
        match route_message(8, frame(), s) {
            RouteDecision::Dispatch(shard, _) => assert_eq!(shard, first),
            _ => panic!("GET must be dispatched"),
        }
    }
}

// The slice length formula for LRANGE, including clamped and inverted
// ranges and a missing key.
#[test]
fn lrange_lengths_follow_the_clamp_rules() {
    let mut store = KvStore::new();
    let key = Bytes::from("L");
    store
        .rpush(
            key.clone(),
            vec![
                Bytes::from("0"),
                Bytes::from("1"),
                Bytes::from("2"),
                Bytes::from("3"),
                Bytes::from("4"),
            ],
        )
        .unwrap();
    // (start, stop, expected length) with list length five
    let cases = [
        (0i64, -1i64, 5usize),
        (0, 4, 5),
        (1, 3, 3),
        (-2, -1, 2),
        (-100, 100, 5),
        (3, 1, 0),
        (5, 9, 0),
        (-1, 0, 0),
        (4, 4, 1),
    ];
    for (start, stop, want) in cases {
        let got = store.lrange(&key, start, stop).unwrap().len();
        assert_eq!(got, want, "lrange {} {}", start, stop);
    }
    assert_eq!(
        store.lrange(&Bytes::from("missing"), 0, -1).unwrap().len(),
        0
    );
}

// After popping at least the whole list the key is gone.
#[test]
fn lpop_everything_removes_the_key() {
    let mut store = KvStore::new();
    let key = Bytes::from("L");
    store
        .rpush(key.clone(), vec![Bytes::from("a"), Bytes::from("b")])
        .unwrap();
    let popped = store.lpop(&key, 10).unwrap();
    assert_eq!(popped, vec![Bytes::from("a"), Bytes::from("b")]);
    assert!(store.get(&key).unwrap().is_none());
}

// SPOP removes exactly min(count, size) members, no duplicates in one call.
#[test]
fn spop_counts_and_uniqueness() {
    let mut store = KvStore::new();
    let key = Bytes::from("S");
    store
        .sadd(
            key.clone(),
            vec![Bytes::from("a"), Bytes::from("b"), Bytes::from("c")],
        )
        .unwrap();
    let popped = store.spop(&key, 2).unwrap();
    assert_eq!(popped.len(), 2);
    assert_ne!(popped[0], popped[1]);
    let rest = store.smembers(&key).unwrap();
    assert_eq!(rest.len(), 1);
    // Popping more than remain drains the set and removes the key.
    let drained = store.spop(&key, 99).unwrap();
    assert_eq!(drained.len(), 1);
    assert!(store.get(&key).unwrap().is_none());
}

// Counts must be non-negative integers.
#[test]
fn negative_or_garbled_counts_are_errors() {
    let mut h = CommandHandler::new(KvStore::new());
    let out = run(
        &mut h,
        b"*3\r\n$5\r\nLPUSH\r\n$1\r\nL\r\n$1\r\na\r\n*3\r\n$4\r\nLPOP\r\n$1\r\nL\r\n$2\r\n-1\r\n",
    );
    assert_eq!(
        out,
        &b":1\r\n-ERR value is not an integer or out of range\r\n"[..]
    );
    let out = run(&mut h, b"*3\r\n$4\r\nLPOP\r\n$1\r\nL\r\n$2\r\nxy\r\n");
    assert_eq!(
        out,
        &b"-ERR value is not an integer or out of range\r\n"[..]
    );
}

// Malformed lengths and terminators are their own protocol errors.
#[test]
fn malformed_frames_name_their_fault() {
    let mut buf = BytesMut::from(&b"$x\r\nhello\r\n"[..]);
    assert!(matches!(
        parse(&mut buf),
        Err(BufParseError::MalformedLength)
    ));
    let mut buf = BytesMut::from(&b"$3\r\nabcXY"[..]);
    assert!(matches!(
        parse(&mut buf),
        Err(BufParseError::MalformedTerminator)
    ));
    let mut buf = BytesMut::from(&b"+OK\rX"[..]);
    assert!(matches!(
        parse(&mut buf),
        Err(BufParseError::MalformedTerminator)
    ));
}

// CONFIG is answered with a null array without touching any shard.
#[test]
fn config_is_stubbed() {
    match route_message(2, ResponseValue::Array(Some(vec![bulk(b"config")])), 7) {
        RouteDecision::Reply(msg) => {
            assert_eq!(msg.seq, 7);
            assert_eq!(wire(&msg.response_value), b"*-1\r\n");
        }
        RouteDecision::Dispatch(_, _) => panic!("CONFIG must be intercepted"),
    }
}

// SADD reports newly inserted members, not the set's size.
#[test]
fn sadd_counts_only_new_members() {
    let mut store = KvStore::new();
    let key = Bytes::from("S");
    assert_eq!(store.sadd(key.clone(), vec![Bytes::from("a")]).unwrap(), 1);
    assert_eq!(
        store
            .sadd(key.clone(), vec![Bytes::from("a"), Bytes::from("b")])
            .unwrap(),
        1
    );
    assert_eq!(store.smembers(&key).unwrap().len(), 2);
}

// LPOP replies with a bulk string only when the count is one and one
// element came out; any other count gets an array, the empty pop included.
#[test]
fn lpop_reply_shapes() {
    let mut h = CommandHandler::new(KvStore::new());
    let out = run(
        &mut h,
        b"*5\r\n$5\r\nRPUSH\r\n$1\r\nL\r\n$1\r\na\r\n$1\r\nb\r\n$1\r\nc\r\n",
    );
    assert_eq!(out, b":3\r\n");
    // count two: an array of two
    let out = run(&mut h, b"*3\r\n$4\r\nLPOP\r\n$1\r\nL\r\n$1\r\n2\r\n");
    assert_eq!(out, b"*2\r\n$1\r\na\r\n$1\r\nb\r\n");
    // count five on a one-element list: still an array, of one
    let out = run(&mut h, b"*3\r\n$4\r\nLPOP\r\n$1\r\nL\r\n$1\r\n5\r\n");
    assert_eq!(out, b"*1\r\n$1\r\nc\r\n");
    // no count on a one-element list: one element as a bulk string
    let out = run(&mut h, b"*3\r\n$5\r\nRPUSH\r\n$1\r\nL\r\n$1\r\nd\r\n");
    assert_eq!(out, b":1\r\n");
    let out = run(&mut h, b"*2\r\n$4\r\nLPOP\r\n$1\r\nL\r\n");
    assert_eq!(out, b"$1\r\nd\r\n");
    // key is gone now; popping yields an empty array
    let out = run(&mut h, b"*2\r\n$4\r\nLPOP\r\n$1\r\nL\r\n");
    assert_eq!(out, b"*0\r\n");
}

// GET against a list is the executor-level type error.
#[test]
fn get_on_list_is_wrongtype() {
    let mut h = CommandHandler::new(KvStore::new());
    let out = run(
        &mut h,
        b"*3\r\n$5\r\nRPUSH\r\n$1\r\nL\r\n$1\r\na\r\n*2\r\n$3\r\nGET\r\n$1\r\nL\r\n",
    );
    assert_eq!(
        out,
        &b":1\r\n-WRONGTYPE Operation against a key holding the wrong kind of value\r\n"[..]
    );
}
