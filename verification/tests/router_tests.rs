use bytes::Bytes;
use rustis::message::ResponseValue;
use rustis::router::{route_message, RouteDecision};

fn bulk(s: &str) -> ResponseValue {
    ResponseValue::BulkString(Some(Bytes::copy_from_slice(s.as_bytes())))
}

#[test]
fn test_happy_path_routing() {
    let worker_count = 4;

    let frame = ResponseValue::Array(Some(vec![bulk("GET"), bulk("user_123")]));

    match route_message(worker_count, frame.clone(), 42) {
        RouteDecision::Dispatch(shard, msg) => {
            assert!(shard < worker_count, "Message was not routed to any worker");
            assert_eq!(msg.seq, 42);
            assert_eq!(msg.response_value, frame);
        }
        RouteDecision::Reply(_) => panic!("Message was not routed to any worker"),
    }
}

#[test]
fn test_ping_pong_intercept() {
    let frame = ResponseValue::Array(Some(vec![bulk("PING")]));

    match route_message(1, frame, 1) {
        RouteDecision::Reply(msg) => match msg.response_value {
            ResponseValue::SimpleString(s) => assert_eq!(s.as_ref(), b"PONG"),
            other => panic!("Should receive PONG response, got {:?}", other),
        },
        RouteDecision::Dispatch(_, _) => panic!("Should receive PONG response"),
    }
}

#[test]
fn test_invalid_frame_type() {
    // Sending a SimpleString where an Array is expected
    let frame = ResponseValue::SimpleString(Bytes::from("I am not an array"));

    match route_message(1, frame, 1) {
        RouteDecision::Reply(msg) => match msg.response_value {
            ResponseValue::Error(s) => assert_eq!(s.as_ref(), b"Value must be array"),
            other => panic!("Should receive error response, got {:?}", other),
        },
        RouteDecision::Dispatch(_, _) => panic!("Should receive error response"),
    }
}

#[test]
fn test_missing_key_error() {
    // Command with no key: ["GET"]
    let frame = ResponseValue::Array(Some(vec![bulk("GET")]));

    match route_message(1, frame, 1) {
        RouteDecision::Reply(msg) => match msg.response_value {
            ResponseValue::Error(s) => assert_eq!(s.as_ref(), b"error while parsing key"),
            other => panic!("Should receive parsing error, got {:?}", other),
        },
        RouteDecision::Dispatch(_, _) => panic!("Should receive parsing error"),
    }
}
