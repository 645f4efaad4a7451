//! The router: maps each parsed request to the one shard that owns its
//! key, answering connection-scoped commands itself.
use vstd::prelude::*;
use crate::byteops::{bytes_view, bytes_len, bytes_at, bytes_from_vec};
use crate::handler::{bulk_ok, bulk_val, upper_seq};
use crate::message::{RespData, ResponseValue, ResponseMessage, WorkerMessage, rv_view, rv_views,
    lemma_rv_views};
use crate::wire_text::{
    name_ping,
    name_config,
    name_ping_bytes,
    name_config_bytes,
    pong_text,
    pong_bytes,
    value_must_be_array_text,
    value_must_be_array_bytes,
    empty_request_text,
    empty_request_bytes,
    cmd_not_bulk_text,
    cmd_not_bulk_bytes,
    key_parse_text,
    key_parse_bytes,
};

verus! {

pub const FNV_OFFSET: u64 = 14695981039346656037;

pub const FNV_PRIME: u64 = 1099511628211;

/// One round of the FNV-1a byte hash, with the multiply wrapping at
/// sixty-four bits.
pub open spec fn fnv1a_step(h: u64, b: u8) -> u64 {
    ((((h ^ (b as u64)) as nat) * (FNV_PRIME as nat)) % 0x10000000000000000) as u64
}

/// The FNV-1a hash of a byte sequence: the stable, process-independent
/// hash that pins every key to one shard.
pub open spec fn fnv1a(s: Seq<u8>) -> u64
    decreases s.len(),
{
    if s.len() == 0 {
        FNV_OFFSET
    } else {
        fnv1a_step(fnv1a(s.drop_last()), s.last())
    }
}

/// Computes the FNV-1a hash of the bytes behind the handle.
#[verifier::loop_isolation(false)]
pub fn fnv1a_hash(key: &bytes::Bytes) -> (r: u64)
    ensures
        r == fnv1a(bytes_view(*key)),
{
    let ghost s = bytes_view(*key);
    let n = bytes_len(key);
    let mut h: u64 = FNV_OFFSET;
    let mut i: usize = 0;
    proof {
        assert(s.take(0) =~= Seq::<u8>::empty());
    }
    while i < n
        invariant
            0 <= i <= n,
            h == fnv1a(s.take(i as int)),
        decreases n - i,
    {
        let b = bytes_at(key, i);
        let x: u64 = h ^ (b as u64);
        let wide: u128 = (x as u128) * (FNV_PRIME as u128);
        h = (wide % 0x10000000000000000u128) as u64;
        proof {
            assert(s.take(i + 1).drop_last() =~= s.take(i as int));
            assert(s.take(i + 1).last() == s[i as int]);
            assert(h == fnv1a_step(fnv1a(s.take(i as int)), s[i as int]));
        }
        i += 1;
    }
    proof {
        assert(s.take(n as int) =~= s);
    }
    h
}

/// Whether the router answers this request itself, without any shard.
pub open spec fn intercepted(req: RespData) -> bool {
    if !(req matches RespData::Array(Some(_))) {
        true
    } else {
        let items = req->Array_0.unwrap();
        if items.len() == 0 {
            true
        } else if !bulk_ok(items[0]) {
            true
        } else {
            let cmd = upper_seq(bulk_val(items[0]));
            cmd == name_ping() || cmd == name_config() || items.len() < 2 || !bulk_ok(items[1])
        }
    }
}

/// The reply the router gives when it intercepts a request.
pub open spec fn intercept_reply(req: RespData) -> RespData {
    if !(req matches RespData::Array(Some(_))) {
        RespData::Error(value_must_be_array_text())
    } else {
        let items = req->Array_0.unwrap();
        if items.len() == 0 {
            RespData::Error(empty_request_text())
        } else if !bulk_ok(items[0]) {
            RespData::Error(cmd_not_bulk_text())
        } else {
            let cmd = upper_seq(bulk_val(items[0]));
            if cmd == name_ping() {
                RespData::Simple(pong_text())
            } else if cmd == name_config() {
                RespData::Array(None)
            } else {
                RespData::Error(key_parse_text())
            }
        }
    }
}

/// The key that pins a routed request to its shard: the second element.
pub open spec fn route_key(req: RespData) -> Seq<u8> {
    bulk_val(req->Array_0.unwrap()[1])
}

/// What the router decided for one request.
pub enum RouteDecision {
    /// Answer on the connection's reply channel directly.
    Reply(ResponseMessage),
    /// Hand the request to the shard with this index.
    Dispatch(usize, WorkerMessage),
}

/// Decides where one parsed request goes. PING and CONFIG, and requests
/// with no usable key, are answered directly; everything else is pinned
/// to shard `fnv1a(key) mod num_shards`.
#[verifier::loop_isolation(false)]
pub fn route_message(num_shards: usize, frame: ResponseValue, seq: u64) -> (r: RouteDecision)
    requires
        num_shards > 0,
    ensures
        match r {
            RouteDecision::Reply(msg) => intercepted(frame@) && msg.seq == seq
                && msg.response_value@ == intercept_reply(frame@),
            RouteDecision::Dispatch(shard, msg) => !intercepted(frame@) && shard as int == fnv1a(
                route_key(frame@),
            ) as int % num_shards as int && msg.seq == seq && msg.response_value@ == frame@,
        },
{
    let ghost req = frame@;
    let items = match &frame {
        ResponseValue::Array(Some(items)) => items,
        _ => {
            return RouteDecision::Reply(
                ResponseMessage {
                    seq,
                    response_value: ResponseValue::Error(
                        bytes_from_vec(value_must_be_array_bytes()),
                    ),
                },
            );
        },
    };
    proof {
        assert(req->Array_0.unwrap() == rv_views(items@));
        lemma_rv_views(items@);
    }
    if items.len() == 0 {
        return RouteDecision::Reply(
            ResponseMessage {
                seq,
                response_value: ResponseValue::Error(bytes_from_vec(empty_request_bytes())),
            },
        );
    }
    let ghost models = rv_views(items@);
    proof {
        assert(models[0] == rv_view(items@[0]));
    }
    let cmd = match &items[0] {
        ResponseValue::BulkString(Some(b)) => b,
        _ => {
            return RouteDecision::Reply(
                ResponseMessage {
                    seq,
                    response_value: ResponseValue::Error(bytes_from_vec(cmd_not_bulk_bytes())),
                },
            );
        },
    };
    proof {
        assert(bulk_val(models[0]) == bytes_view(*cmd));
    }
    let nm_ping = name_ping_bytes();
    if crate::handler::cmd_matches(cmd, &nm_ping) {
        return RouteDecision::Reply(
            ResponseMessage {
                seq,
                response_value: ResponseValue::SimpleString(bytes_from_vec(pong_bytes())),
            },
        );
    }
    let nm_config = name_config_bytes();
    if crate::handler::cmd_matches(cmd, &nm_config) {
        return RouteDecision::Reply(
            ResponseMessage { seq, response_value: ResponseValue::Array(None) },
        );
    }
    if items.len() < 2 {
        return RouteDecision::Reply(
            ResponseMessage {
                seq,
                response_value: ResponseValue::Error(bytes_from_vec(key_parse_bytes())),
            },
        );
    }
    proof {
        assert(models[1] == rv_view(items@[1]));
    }
    let key = match &items[1] {
        ResponseValue::BulkString(Some(b)) => b,
        _ => {
            return RouteDecision::Reply(
                ResponseMessage {
                    seq,
                    response_value: ResponseValue::Error(bytes_from_vec(key_parse_bytes())),
                },
            );
        },
    };
    let h = fnv1a_hash(key);
    let shard = (h % (num_shards as u64)) as usize;
    RouteDecision::Dispatch(shard, WorkerMessage { seq, response_value: frame })
}

} // verus!
