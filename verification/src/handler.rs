//! The command executor: validates a parsed request against the command
//! table, runs it against the store, and shapes the reply.
//!
//! `handle_step` is the command table as a mathematical function from the
//! store's map and the request to the new map and the reply. It is partial
//! only where the reply's order is deliberately unspecified (a popped or
//! listed set); there the contract states the set-level facts instead.
use vstd::prelude::*;
use crate::byteops::{bytes_view, bytes_len, bytes_at, bytes_from_vec, bytes_to_vec};
use crate::kv::{
    bytes_views,
    sat_len,
    spec_range,
    DatabaseError,
    KvStore,
    RedisValue,
    ValModel,
};
use crate::message::{RespData, ResponseValue, rv_view, rv_views, lemma_rv_views};
use crate::num::{i64_literal_ok, int_literal_val};
use crate::parser::parse_i64_slice;
use crate::wire_text::{
    pong_text,
    ok_text,
    wrongtype_text,
    not_int_text,
    not_array_text,
    empty_request_text,
    cmd_not_bulk_text,
    invalid_command_text,
    key_not_bulk_text,
    value_not_bulk_text,
    pushed_not_bulk_text,
    count_not_bulk_text,
    expected_bulk_text,
    wrong_args_get_text,
    wrong_args_set_text,
    wrong_args_lpush_text,
    wrong_args_rpush_text,
    wrong_args_lpop_text,
    wrong_args_rpop_text,
    wrong_args_lrange_text,
    wrong_args_sadd_text,
    wrong_args_spop_text,
    wrong_args_smembers_text,
    name_ping,
    name_config,
    name_get,
    name_set,
    name_lpush,
    name_lpop,
    name_rpush,
    name_rpop,
    name_lrange,
    name_sadd,
    name_spop,
    name_smembers,
    pong_bytes,
    ok_bytes,
    wrongtype_bytes,
    not_int_bytes,
    not_array_bytes,
    empty_request_bytes,
    cmd_not_bulk_bytes,
    invalid_command_bytes,
    key_not_bulk_bytes,
    value_not_bulk_bytes,
    pushed_not_bulk_bytes,
    count_not_bulk_bytes,
    expected_bulk_bytes,
    wrong_args_get_bytes,
    wrong_args_set_bytes,
    wrong_args_lpush_bytes,
    wrong_args_rpush_bytes,
    wrong_args_lpop_bytes,
    wrong_args_rpop_bytes,
    wrong_args_lrange_bytes,
    wrong_args_sadd_bytes,
    wrong_args_spop_bytes,
    wrong_args_smembers_bytes,
    name_ping_bytes,
    name_config_bytes,
    name_get_bytes,
    name_set_bytes,
    name_lpush_bytes,
    name_lpop_bytes,
    name_rpush_bytes,
    name_rpop_bytes,
    name_lrange_bytes,
    name_sadd_bytes,
    name_spop_bytes,
    name_smembers_bytes,
};

verus! {

/// ASCII upper-casing of one byte.
pub open spec fn upper(b: u8) -> u8 {
    if 97 <= b <= 122 {
        (b - 32) as u8
    } else {
        b
    }
}

pub open spec fn upper_seq(s: Seq<u8>) -> Seq<u8> {
    Seq::new(s.len(), |i: int| upper(s[i]))
}

pub open spec fn bulk_ok(v: RespData) -> bool {
    v matches RespData::Bulk(Some(_))
}

pub open spec fn bulk_val(v: RespData) -> Seq<u8> {
    v->Bulk_0.unwrap()
}

pub open spec fn all_bulk(items: Seq<RespData>) -> bool {
    forall|j: int| 0 <= j < items.len() ==> bulk_ok(#[trigger] items[j])
}

/// The payloads of a run of bulk strings.
pub open spec fn as_bulks(items: Seq<RespData>) -> Seq<Seq<u8>> {
    Seq::new(items.len(), |i: int| bulk_val(items[i]))
}

/// A run of payloads as a run of bulk-string values.
pub open spec fn bulks_of(vals: Seq<Seq<u8>>) -> Seq<RespData> {
    Seq::new(vals.len(), |i: int| RespData::Bulk(Some(vals[i])))
}

pub open spec fn err_step(db: Map<Seq<u8>, ValModel>, t: Seq<u8>) -> Option<
    (Map<Seq<u8>, ValModel>, RespData),
> {
    Some((db, RespData::Error(t)))
}

pub open spec fn step_get(db: Map<Seq<u8>, ValModel>, args: Seq<RespData>) -> Option<
    (Map<Seq<u8>, ValModel>, RespData),
> {
    if args.len() != 1 {
        err_step(db, wrong_args_get_text())
    } else if !bulk_ok(args[0]) {
        err_step(db, key_not_bulk_text())
    } else {
        let k = bulk_val(args[0]);
        if !db.contains_key(k) {
            Some((db, RespData::Bulk(None)))
        } else if db[k] is Str {
            Some((db, RespData::Bulk(Some(db[k]->Str_0))))
        } else {
            err_step(db, wrongtype_text())
        }
    }
}

pub open spec fn step_set(db: Map<Seq<u8>, ValModel>, args: Seq<RespData>) -> Option<
    (Map<Seq<u8>, ValModel>, RespData),
> {
    if args.len() != 2 {
        err_step(db, wrong_args_set_text())
    } else if !bulk_ok(args[0]) {
        err_step(db, key_not_bulk_text())
    } else if !bulk_ok(args[1]) {
        err_step(db, value_not_bulk_text())
    } else {
        Some(
            (
                db.insert(bulk_val(args[0]), ValModel::Str(bulk_val(args[1]))),
                RespData::Simple(ok_text()),
            ),
        )
    }
}

pub open spec fn step_push(
    db: Map<Seq<u8>, ValModel>,
    args: Seq<RespData>,
    front: bool,
) -> Option<(Map<Seq<u8>, ValModel>, RespData)> {
    if args.len() < 2 {
        err_step(
            db,
            if front {
                wrong_args_lpush_text()
            } else {
                wrong_args_rpush_text()
            },
        )
    } else if !bulk_ok(args[0]) {
        err_step(db, key_not_bulk_text())
    } else if !all_bulk(args.skip(1)) {
        err_step(db, pushed_not_bulk_text())
    } else {
        let k = bulk_val(args[0]);
        let vs = as_bulks(args.skip(1));
        if db.contains_key(k) && !(db[k] is List) {
            err_step(db, wrongtype_text())
        } else {
            let l0 = if db.contains_key(k) {
                db[k]->List_0
            } else {
                Seq::<Seq<u8>>::empty()
            };
            let l1 = if front {
                vs.reverse() + l0
            } else {
                l0 + vs
            };
            Some(
                (
                    db.insert(k, ValModel::List(l1)),
                    RespData::Integer(sat_len(l1.len() as int) as i64),
                ),
            )
        }
    }
}

/// The count argument of a pop: absent means one; it must be a bulk
/// string holding a non-negative `i64`.
pub open spec fn count_of(args: Seq<RespData>, not_bulk: Seq<u8>) -> Result<int, Seq<u8>> {
    if args.len() < 2 {
        Ok(1)
    } else if !bulk_ok(args[1]) {
        Err(not_bulk)
    } else if !i64_literal_ok(bulk_val(args[1])) || int_literal_val(bulk_val(args[1])) < 0 {
        Err(not_int_text())
    } else {
        Ok(int_literal_val(bulk_val(args[1])))
    }
}

pub open spec fn step_pop(
    db: Map<Seq<u8>, ValModel>,
    args: Seq<RespData>,
    front: bool,
) -> Option<(Map<Seq<u8>, ValModel>, RespData)> {
    if !(args.len() == 1 || args.len() == 2) {
        err_step(
            db,
            if front {
                wrong_args_lpop_text()
            } else {
                wrong_args_rpop_text()
            },
        )
    } else if !bulk_ok(args[0]) {
        err_step(db, key_not_bulk_text())
    } else {
        match count_of(args, count_not_bulk_text()) {
            Err(t) => err_step(db, t),
            Ok(n) => {
                let k = bulk_val(args[0]);
                if !db.contains_key(k) {
                    Some((db, RespData::Array(Some(Seq::empty()))))
                } else if !(db[k] is List) {
                    err_step(db, wrongtype_text())
                } else {
                    let l0 = db[k]->List_0;
                    let n2 = if n <= l0.len() {
                        n
                    } else {
                        l0.len() as int
                    };
                    let popped = if front {
                        l0.take(n2)
                    } else {
                        l0.skip(l0.len() - n2)
                    };
                    let kept = if front {
                        l0.skip(n2)
                    } else {
                        l0.take(l0.len() - n2)
                    };
                    let db1 = if n2 == l0.len() {
                        db.remove(k)
                    } else {
                        db.insert(k, ValModel::List(kept))
                    };
                    let rep = if n == 1 && popped.len() == 1 {
                        RespData::Bulk(Some(popped[0]))
                    } else {
                        RespData::Array(Some(bulks_of(popped)))
                    };
                    Some((db1, rep))
                }
            },
        }
    }
}

pub open spec fn step_lrange(db: Map<Seq<u8>, ValModel>, args: Seq<RespData>) -> Option<
    (Map<Seq<u8>, ValModel>, RespData),
> {
    if args.len() != 3 {
        err_step(db, wrong_args_lrange_text())
    } else if !bulk_ok(args[0]) {
        err_step(db, key_not_bulk_text())
    } else if !bulk_ok(args[1]) {
        err_step(db, expected_bulk_text())
    } else if !i64_literal_ok(bulk_val(args[1])) {
        err_step(db, not_int_text())
    } else if !bulk_ok(args[2]) {
        err_step(db, expected_bulk_text())
    } else if !i64_literal_ok(bulk_val(args[2])) {
        err_step(db, not_int_text())
    } else {
        let k = bulk_val(args[0]);
        if !db.contains_key(k) {
            Some((db, RespData::Array(Some(Seq::empty()))))
        } else if !(db[k] is List) {
            err_step(db, wrongtype_text())
        } else {
            let l0 = db[k]->List_0;
            let rng = spec_range(
                int_literal_val(bulk_val(args[1])),
                int_literal_val(bulk_val(args[2])),
                l0.len() as int,
            );
            Some((db, RespData::Array(Some(bulks_of(l0.subrange(rng.0, rng.1))))))
        }
    }
}

pub open spec fn step_sadd(db: Map<Seq<u8>, ValModel>, args: Seq<RespData>) -> Option<
    (Map<Seq<u8>, ValModel>, RespData),
> {
    if args.len() < 2 {
        err_step(db, wrong_args_sadd_text())
    } else if !bulk_ok(args[0]) {
        err_step(db, key_not_bulk_text())
    } else if !all_bulk(args.skip(1)) {
        err_step(db, pushed_not_bulk_text())
    } else {
        let k = bulk_val(args[0]);
        let vset = as_bulks(args.skip(1)).to_set();
        if db.contains_key(k) && !(db[k] is SetValue) {
            err_step(db, wrongtype_text())
        } else {
            let m0 = if db.contains_key(k) {
                db[k]->SetValue_0
            } else {
                Set::<Seq<u8>>::empty()
            };
            let m1 = m0.union(vset);
            Some(
                (
                    db.insert(k, ValModel::SetValue(m1)),
                    RespData::Integer(sat_len(m1.len() as int - m0.len() as int) as i64),
                ),
            )
        }
    }
}

/// The error paths of SPOP; the store-reaching path is left to the
/// relational postcondition, because member order is unspecified.
pub open spec fn step_spop_err(db: Map<Seq<u8>, ValModel>, args: Seq<RespData>) -> Option<
    (Map<Seq<u8>, ValModel>, RespData),
> {
    if !(args.len() == 1 || args.len() == 2) {
        err_step(db, wrong_args_spop_text())
    } else if !bulk_ok(args[0]) {
        err_step(db, key_not_bulk_text())
    } else {
        match count_of(args, expected_bulk_text()) {
            Err(t) => err_step(db, t),
            Ok(_) => None,
        }
    }
}

pub open spec fn step_smembers_err(db: Map<Seq<u8>, ValModel>, args: Seq<RespData>) -> Option<
    (Map<Seq<u8>, ValModel>, RespData),
> {
    if args.len() != 1 {
        err_step(db, wrong_args_smembers_text())
    } else if !bulk_ok(args[0]) {
        err_step(db, key_not_bulk_text())
    } else {
        None
    }
}

/// The command table. `Some` pins the new store and the reply exactly;
/// `None` marks the two commands whose reply order is unspecified.
pub open spec fn handle_step(db: Map<Seq<u8>, ValModel>, req: RespData) -> Option<
    (Map<Seq<u8>, ValModel>, RespData),
> {
    if !(req matches RespData::Array(Some(_))) {
        err_step(db, not_array_text())
    } else {
        let items = req->Array_0.unwrap();
        if items.len() == 0 {
            err_step(db, empty_request_text())
        } else if !bulk_ok(items[0]) {
            err_step(db, cmd_not_bulk_text())
        } else {
            let cmd = upper_seq(bulk_val(items[0]));
            let args = items.drop_first();
            if cmd == name_ping() {
                Some((db, RespData::Simple(pong_text())))
            } else if cmd == name_config() {
                Some((db, RespData::Array(None)))
            } else if cmd == name_get() {
                step_get(db, args)
            } else if cmd == name_set() {
                step_set(db, args)
            } else if cmd == name_lpush() {
                step_push(db, args, true)
            } else if cmd == name_lpop() {
                step_pop(db, args, true)
            } else if cmd == name_rpush() {
                step_push(db, args, false)
            } else if cmd == name_rpop() {
                step_pop(db, args, false)
            } else if cmd == name_lrange() {
                step_lrange(db, args)
            } else if cmd == name_sadd() {
                step_sadd(db, args)
            } else if cmd == name_spop() {
                step_spop_err(db, args)
            } else if cmd == name_smembers() {
                step_smembers_err(db, args)
            } else {
                err_step(db, invalid_command_text())
            }
        }
    }
}

/// What holds of a completed SPOP that reached the store.
pub open spec fn spop_post(
    db0: Map<Seq<u8>, ValModel>,
    k: Seq<u8>,
    count: int,
    db1: Map<Seq<u8>, ValModel>,
    rep: RespData,
) -> bool {
    if !db0.contains_key(k) {
        db1 == db0 && rep == RespData::Array(Some(Seq::<RespData>::empty()))
    } else if !(db0[k] is SetValue) {
        db1 == db0 && rep == RespData::Error(wrongtype_text())
    } else {
        let m0 = db0[k]->SetValue_0;
        let n = if count <= m0.len() {
            count
        } else {
            m0.len() as int
        };
        &&& rep matches RespData::Array(Some(its))
        &&& all_bulk(rep->Array_0.unwrap())
        &&& ({
            let ps = as_bulks(rep->Array_0.unwrap());
            &&& ps.len() == n
            &&& ps.no_duplicates()
            &&& forall|t: int| 0 <= t < ps.len() ==> m0.contains(#[trigger] ps[t])
            &&& db1 == if n == m0.len() {
                db0.remove(k)
            } else {
                db0.insert(k, ValModel::SetValue(m0.difference(ps.to_set())))
            }
        })
    }
}

/// What holds of a completed SMEMBERS that reached the store.
pub open spec fn smembers_post(
    db0: Map<Seq<u8>, ValModel>,
    k: Seq<u8>,
    db1: Map<Seq<u8>, ValModel>,
    rep: RespData,
) -> bool {
    &&& db1 == db0
    &&& if !db0.contains_key(k) {
        rep == RespData::Array(Some(Seq::<RespData>::empty()))
    } else if !(db0[k] is SetValue) {
        rep == RespData::Error(wrongtype_text())
    } else {
        let m0 = db0[k]->SetValue_0;
        &&& rep matches RespData::Array(Some(its))
        &&& all_bulk(rep->Array_0.unwrap())
        &&& as_bulks(rep->Array_0.unwrap()).no_duplicates()
        &&& as_bulks(rep->Array_0.unwrap()).to_set() == m0
        &&& as_bulks(rep->Array_0.unwrap()).len() == m0.len()
    }
}

/// The relational half of the command table, for the two set commands.
pub open spec fn handle_step_unordered(
    db0: Map<Seq<u8>, ValModel>,
    req: RespData,
    db1: Map<Seq<u8>, ValModel>,
    rep: RespData,
) -> bool {
    let items = req->Array_0.unwrap();
    let cmd = upper_seq(bulk_val(items[0]));
    let args = items.drop_first();
    let k = bulk_val(args[0]);
    if cmd == name_spop() {
        spop_post(db0, k, count_of(args, expected_bulk_text())->Ok_0, db1, rep)
    } else {
        smembers_post(db0, k, db1, rep)
    }
}


fn upper_byte(b: u8) -> (r: u8)
    ensures
        r == upper(b),
{
    if b >= 97 && b <= 122 {
        b - 32
    } else {
        b
    }
}

/// Case-insensitive comparison of a command word against an upper-case
/// command name.
#[verifier::loop_isolation(false)]
pub fn cmd_matches(cmd: &bytes::Bytes, name: &Vec<u8>) -> (r: bool)
    ensures
        r == (upper_seq(bytes_view(*cmd)) == name@),
{
    let n = bytes_len(cmd);
    if n != name.len() {
        proof {
            assert(upper_seq(bytes_view(*cmd)).len() != name@.len());
        }
        return false;
    }
    let mut i: usize = 0;
    while i < n
        invariant
            0 <= i <= n,
            forall|j: int| 0 <= j < i ==> upper(bytes_view(*cmd)[j]) == name@[j],
        decreases n - i,
    {
        let c = upper_byte(bytes_at(cmd, i));
        if c != name[i] {
            proof {
                assert(upper_seq(bytes_view(*cmd))[i as int] != name@[i as int]);
            }
            return false;
        }
        i += 1;
    }
    proof {
        assert(upper_seq(bytes_view(*cmd)) =~= name@);
    }
    true
}

/// An error reply carrying the given text.
fn error_reply(text: Vec<u8>) -> (r: ResponseValue)
    ensures
        r@ == RespData::Error(text@),
{
    ResponseValue::Error(bytes_from_vec(text))
}

/// An array reply of one bulk string per byte payload, in order.
#[verifier::loop_isolation(false)]
fn bulks_reply(vals: Vec<bytes::Bytes>) -> (r: ResponseValue)
    ensures
        r@ == RespData::Array(Some(bulks_of(bytes_views(vals@)))),
{
    let mut out: Vec<ResponseValue> = Vec::new();
    let mut i: usize = 0;
    proof {
        lemma_rv_views(out@);
    }
    while i < vals.len()
        invariant
            0 <= i <= vals@.len(),
            out@.len() == i,
            rv_views(out@) == bulks_of(bytes_views(vals@)).take(i as int),
        decreases vals@.len() - i,
    {
        let ghost pre = out@;
        let b = vals[i].clone();
        let elem = ResponseValue::BulkString(Some(b));
        out.push(elem);
        proof {
            assert(out@ =~= pre.push(elem));
            crate::message::lemma_rv_views_push(pre, elem);
            assert(rv_views(out@) =~= bulks_of(bytes_views(vals@)).take(i + 1));
        }
        i += 1;
    }
    proof {
        assert(rv_views(out@) =~= bulks_of(bytes_views(vals@)));
    }
    ResponseValue::Array(Some(out))
}

/// Reads a bulk-string argument as a signed 64-bit integer.
fn parse_int(value: &ResponseValue) -> (r: Result<i64, bytes::Bytes>)
    ensures
        match r {
            Ok(v) => rv_view(*value) matches RespData::Bulk(Some(p)) && i64_literal_ok(p) && v
                == int_literal_val(p),
            Err(m) => if rv_view(*value) matches RespData::Bulk(Some(_)) {
                !i64_literal_ok(bulk_val(rv_view(*value))) && bytes_view(m) == not_int_text()
            } else {
                bytes_view(m) == expected_bulk_text()
            },
        },
{
    match value {
        ResponseValue::BulkString(Some(b)) => {
            let text = bytes_to_vec(b);
            match parse_i64_slice(text.as_slice()) {
                Some(v) => Ok(v),
                None => Err(bytes_from_vec(not_int_bytes())),
            }
        },
        _ => Err(bytes_from_vec(expected_bulk_bytes())),
    }
}

/// The executor bound to one shard's store.
pub struct CommandHandler {
    kv: KvStore,
}

impl View for CommandHandler {
    type V = Map<Seq<u8>, ValModel>;

    closed spec fn view(&self) -> Map<Seq<u8>, ValModel> {
        self.kv@
    }
}

impl CommandHandler {
    pub closed spec fn wf(&self) -> bool {
        self.kv.wf()
    }

    pub fn new(kv: KvStore) -> (h: CommandHandler)
        requires
            kv.wf(),
        ensures
            h.wf(),
            h@ == kv@,
    {
        CommandHandler { kv }
    }
}


impl CommandHandler {
    /// Runs GET: reads the string at the key.
    fn handle_get(&mut self, items: &Vec<ResponseValue>) -> (r: ResponseValue)
        requires
            old(self).wf(),
            items@.len() >= 1,
        ensures
            final(self).wf(),
            ({
                let args = rv_views(items@).drop_first();
                step_get(old(self)@, args) matches Some(p) && final(self)@ == p.0 && r@ == p.1
            }),
    {
        proof {
            lemma_rv_views(items@);
        }
        let ghost args = rv_views(items@).drop_first();
        if items.len() != 2 {
            return error_reply(wrong_args_get_bytes());
        }
        let key = match &items[1] {
            ResponseValue::BulkString(Some(b)) => b,
            _ => {
                proof {
                    assert(args[0] == rv_view(items@[1]));
                }
                return error_reply(key_not_bulk_bytes());
            },
        };
        proof {
            assert(args[0] == rv_view(items@[1]));
            assert(bulk_val(args[0]) == bytes_view(*key));
        }
        match self.kv.get(key) {
            Ok(Some(RedisValue::String(b))) => ResponseValue::BulkString(Some(b)),
            Ok(Some(v)) => {
                proof {
                    assert(!(old(self)@[bytes_view(*key)] is Str));
                }
                error_reply(wrongtype_bytes())
            },
            Ok(None) => ResponseValue::BulkString(None),
            Err(_) => {
                proof {
                    assert(false);
                }
                error_reply(wrongtype_bytes())
            },
        }
    }

    /// Runs SET: binds the key to the byte string.
    fn handle_set(&mut self, items: &Vec<ResponseValue>) -> (r: ResponseValue)
        requires
            old(self).wf(),
            items@.len() >= 1,
        ensures
            final(self).wf(),
            ({
                let args = rv_views(items@).drop_first();
                step_set(old(self)@, args) matches Some(p) && final(self)@ == p.0 && r@ == p.1
            }),
    {
        proof {
            lemma_rv_views(items@);
        }
        let ghost args = rv_views(items@).drop_first();
        if items.len() != 3 {
            return error_reply(wrong_args_set_bytes());
        }
        proof {
            assert(args[0] == rv_view(items@[1]));
            assert(args[1] == rv_view(items@[2]));
        }
        let key = match &items[1] {
            ResponseValue::BulkString(Some(b)) => b.clone(),
            _ => {
                return error_reply(key_not_bulk_bytes());
            },
        };
        let val = match &items[2] {
            ResponseValue::BulkString(Some(b)) => b.clone(),
            _ => {
                return error_reply(value_not_bulk_bytes());
            },
        };
        let _ = self.kv.set(key, val);
        ResponseValue::SimpleString(bytes_from_vec(ok_bytes()))
    }

    /// Gathers the values of a push or SADD request: every argument after
    /// the key, each a bulk string.
    #[verifier::loop_isolation(false)]
    fn gather_values(items: &Vec<ResponseValue>) -> (r: Option<Vec<bytes::Bytes>>)
        requires
            items@.len() >= 2,
        ensures
            ({
                let args = rv_views(items@).drop_first();
                match r {
                    Some(vals) => all_bulk(args.skip(1)) && bytes_views(vals@) == as_bulks(
                        args.skip(1),
                    ),
                    None => !all_bulk(args.skip(1)),
                }
            }),
    {
        proof {
            lemma_rv_views(items@);
        }
        let ghost args = rv_views(items@).drop_first();
        let ghost rest = args.skip(1);
        let mut vals: Vec<bytes::Bytes> = Vec::new();
        let mut i: usize = 2;
        while i < items.len()
            invariant
                2 <= i <= items@.len(),
                vals@.len() == i - 2,
                forall|j: int| 0 <= j < i - 2 ==> bulk_ok(#[trigger] rest[j]) && bytes_view(
                    vals@[j],
                ) == bulk_val(rest[j]),
            decreases items@.len() - i,
        {
            proof {
                assert(rest[i - 2] == rv_view(items@[i as int]));
            }
            match &items[i] {
                ResponseValue::BulkString(Some(b)) => {
                    vals.push(b.clone());
                },
                _ => {
                    proof {
                        assert(!bulk_ok(rest[i - 2]));
                    }
                    return None;
                },
            }
            i += 1;
        }
        proof {
            assert(bytes_views(vals@) =~= as_bulks(rest));
        }
        Some(vals)
    }

    /// Runs LPUSH or RPUSH.
    fn handle_push(&mut self, items: &Vec<ResponseValue>, front: bool) -> (r: ResponseValue)
        requires
            old(self).wf(),
            items@.len() >= 1,
        ensures
            final(self).wf(),
            ({
                let args = rv_views(items@).drop_first();
                step_push(old(self)@, args, front) matches Some(p) && final(self)@ == p.0 && r@
                    == p.1
            }),
    {
        proof {
            lemma_rv_views(items@);
        }
        let ghost args = rv_views(items@).drop_first();
        if items.len() < 3 {
            if front {
                return error_reply(wrong_args_lpush_bytes());
            } else {
                return error_reply(wrong_args_rpush_bytes());
            }
        }
        proof {
            assert(args[0] == rv_view(items@[1]));
        }
        let key = match &items[1] {
            ResponseValue::BulkString(Some(b)) => b.clone(),
            _ => {
                return error_reply(key_not_bulk_bytes());
            },
        };
        let vals = match Self::gather_values(items) {
            Some(v) => v,
            None => {
                return error_reply(pushed_not_bulk_bytes());
            },
        };
        let outcome = if front {
            self.kv.lpush(key, vals)
        } else {
            self.kv.rpush(key, vals)
        };
        match outcome {
            Ok(n) => ResponseValue::Integer(n),
            Err(_) => error_reply(wrongtype_bytes()),
        }
    }

    /// Runs LPOP or RPOP.
    fn handle_pop(&mut self, items: &Vec<ResponseValue>, front: bool) -> (r: ResponseValue)
        requires
            old(self).wf(),
            items@.len() >= 1,
        ensures
            final(self).wf(),
            ({
                let args = rv_views(items@).drop_first();
                step_pop(old(self)@, args, front) matches Some(p) && final(self)@ == p.0 && r@
                    == p.1
            }),
    {
        proof {
            lemma_rv_views(items@);
        }
        let ghost args = rv_views(items@).drop_first();
        if !(items.len() == 2 || items.len() == 3) {
            if front {
                return error_reply(wrong_args_lpop_bytes());
            } else {
                return error_reply(wrong_args_rpop_bytes());
            }
        }
        proof {
            assert(args[0] == rv_view(items@[1]));
        }
        let key = match &items[1] {
            ResponseValue::BulkString(Some(b)) => b.clone(),
            _ => {
                return error_reply(key_not_bulk_bytes());
            },
        };
        let count: i64;
        if items.len() == 3 {
            proof {
                assert(args[1] == rv_view(items@[2]));
            }
            match &items[2] {
                ResponseValue::BulkString(Some(b)) => {
                    let text = bytes_to_vec(b);
                    match parse_i64_slice(text.as_slice()) {
                        Some(v) => {
                            if v < 0 {
                                return error_reply(not_int_bytes());
                            }
                            count = v;
                        },
                        None => {
                            return error_reply(not_int_bytes());
                        },
                    }
                },
                _ => {
                    return error_reply(count_not_bulk_bytes());
                },
            }
        } else {
            count = 1;
        }
        let outcome = if front {
            self.kv.lpop(&key, count)
        } else {
            self.kv.rpop(&key, count)
        };
        match outcome {
            Ok(popped) => {
                if count == 1 && popped.len() == 1 {
                    proof {
                        assert(bytes_views(popped@)[0] == bytes_view(popped@[0]));
                    }
                    ResponseValue::BulkString(Some(popped[0].clone()))
                } else {
                    proof {
                        if !old(self)@.contains_key(bytes_view(key)) {
                            assert(bulks_of(bytes_views(popped@)) =~= Seq::<RespData>::empty());
                        }
                    }
                    bulks_reply(popped)
                }
            },
            Err(_) => error_reply(wrongtype_bytes()),
        }
    }

    /// Runs LRANGE.
    fn handle_lrange(&mut self, items: &Vec<ResponseValue>) -> (r: ResponseValue)
        requires
            old(self).wf(),
            items@.len() >= 1,
        ensures
            final(self).wf(),
            ({
                let args = rv_views(items@).drop_first();
                step_lrange(old(self)@, args) matches Some(p) && final(self)@ == p.0 && r@ == p.1
            }),
    {
        proof {
            lemma_rv_views(items@);
        }
        let ghost args = rv_views(items@).drop_first();
        if items.len() != 4 {
            return error_reply(wrong_args_lrange_bytes());
        }
        proof {
            assert(args[0] == rv_view(items@[1]));
            assert(args[1] == rv_view(items@[2]));
            assert(args[2] == rv_view(items@[3]));
        }
        let key = match &items[1] {
            ResponseValue::BulkString(Some(b)) => b.clone(),
            _ => {
                return error_reply(key_not_bulk_bytes());
            },
        };
        let start = match parse_int(&items[2]) {
            Ok(v) => v,
            Err(m) => {
                return ResponseValue::Error(m);
            },
        };
        let stop = match parse_int(&items[3]) {
            Ok(v) => v,
            Err(m) => {
                return ResponseValue::Error(m);
            },
        };
        match self.kv.lrange(&key, start, stop) {
            Ok(vals) => {
                proof {
                    if !old(self)@.contains_key(bytes_view(key)) {
                        assert(bulks_of(bytes_views(vals@)) =~= Seq::<RespData>::empty());
                    }
                }
                bulks_reply(vals)
            },
            Err(_) => error_reply(wrongtype_bytes()),
        }
    }

    /// Runs SADD.
    fn handle_sadd(&mut self, items: &Vec<ResponseValue>) -> (r: ResponseValue)
        requires
            old(self).wf(),
            items@.len() >= 1,
        ensures
            final(self).wf(),
            ({
                let args = rv_views(items@).drop_first();
                step_sadd(old(self)@, args) matches Some(p) && final(self)@ == p.0 && r@ == p.1
            }),
    {
        proof {
            lemma_rv_views(items@);
        }
        let ghost args = rv_views(items@).drop_first();
        if items.len() < 3 {
            return error_reply(wrong_args_sadd_bytes());
        }
        proof {
            assert(args[0] == rv_view(items@[1]));
        }
        let key = match &items[1] {
            ResponseValue::BulkString(Some(b)) => b.clone(),
            _ => {
                return error_reply(key_not_bulk_bytes());
            },
        };
        let vals = match Self::gather_values(items) {
            Some(v) => v,
            None => {
                return error_reply(pushed_not_bulk_bytes());
            },
        };
        let outcome = self.kv.sadd(key, vals);
        match outcome {
            Ok(n) => {
                proof {
                    let k = bytes_view(key);
                    let vs2 = as_bulks(args.skip(1));
                    assert(bytes_views(vals@) == vs2);
                    let m0 = if old(self)@.contains_key(k) {
                        old(self)@[k]->SetValue_0
                    } else {
                        Set::<Seq<u8>>::empty()
                    };
                    let m1 = m0.union(vs2.to_set());
                    assert(vs2.contains(vs2[0]));
                    assert(m1.contains(vs2[0]));
                    if m1.len() == 0 {
                        m1.lemma_len0_is_empty();
                        assert(false);
                    }
                }
                ResponseValue::Integer(n)
            },
            Err(_) => error_reply(wrongtype_bytes()),
        }
    }

    /// Runs SPOP; member order within the reply is unspecified.
    fn handle_spop(&mut self, items: &Vec<ResponseValue>) -> (r: ResponseValue)
        requires
            old(self).wf(),
            items@.len() >= 1,
        ensures
            final(self).wf(),
            ({
                let args = rv_views(items@).drop_first();
                match step_spop_err(old(self)@, args) {
                    Some(p) => final(self)@ == p.0 && r@ == p.1,
                    None => spop_post(
                        old(self)@,
                        bulk_val(args[0]),
                        count_of(args, expected_bulk_text())->Ok_0,
                        final(self)@,
                        r@,
                    ),
                }
            }),
    {
        proof {
            lemma_rv_views(items@);
        }
        let ghost args = rv_views(items@).drop_first();
        if !(items.len() == 2 || items.len() == 3) {
            return error_reply(wrong_args_spop_bytes());
        }
        proof {
            assert(args[0] == rv_view(items@[1]));
        }
        let key = match &items[1] {
            ResponseValue::BulkString(Some(b)) => b.clone(),
            _ => {
                return error_reply(key_not_bulk_bytes());
            },
        };
        let count: i64;
        if items.len() == 3 {
            proof {
                assert(args[1] == rv_view(items@[2]));
            }
            match parse_int(&items[2]) {
                Ok(v) => {
                    if v < 0 {
                        return error_reply(not_int_bytes());
                    }
                    count = v;
                },
                Err(m) => {
                    return ResponseValue::Error(m);
                },
            }
        } else {
            count = 1;
        }
        match self.kv.spop(&key, count) {
            Ok(popped) => {
                proof {
                    let ps = bytes_views(popped@);
                    assert(as_bulks(bulks_of(ps)) =~= ps);
                    assert(all_bulk(bulks_of(ps)));
                    if !old(self)@.contains_key(bytes_view(key)) {
                        assert(bulks_of(ps) =~= Seq::<RespData>::empty());
                    }
                }
                bulks_reply(popped)
            },
            Err(_) => error_reply(wrongtype_bytes()),
        }
    }

    /// Runs SMEMBERS; member order within the reply is unspecified.
    fn handle_smembers(&mut self, items: &Vec<ResponseValue>) -> (r: ResponseValue)
        requires
            old(self).wf(),
            items@.len() >= 1,
        ensures
            final(self).wf(),
            ({
                let args = rv_views(items@).drop_first();
                match step_smembers_err(old(self)@, args) {
                    Some(p) => final(self)@ == p.0 && r@ == p.1,
                    None => smembers_post(old(self)@, bulk_val(args[0]), final(self)@, r@),
                }
            }),
    {
        proof {
            lemma_rv_views(items@);
        }
        let ghost args = rv_views(items@).drop_first();
        if items.len() != 2 {
            return error_reply(wrong_args_smembers_bytes());
        }
        proof {
            assert(args[0] == rv_view(items@[1]));
        }
        let key = match &items[1] {
            ResponseValue::BulkString(Some(b)) => b.clone(),
            _ => {
                return error_reply(key_not_bulk_bytes());
            },
        };
        match self.kv.smembers(&key) {
            Ok(vals) => {
                proof {
                    let ps = bytes_views(vals@);
                    assert(as_bulks(bulks_of(ps)) =~= ps);
                    assert(all_bulk(bulks_of(ps)));
                    if !self@.contains_key(bytes_view(key)) {
                        assert(bulks_of(ps) =~= Seq::<RespData>::empty());
                    }
                }
                bulks_reply(vals)
            },
            Err(_) => error_reply(wrongtype_bytes()),
        }
    }

    /// Dispatches one parsed request and returns its reply, mutating the
    /// store as the command table says.
    pub fn process_command(&mut self, value: ResponseValue) -> (r: ResponseValue)
        requires
            old(self).wf(),
        ensures
            final(self).wf(),
            ({
                match handle_step(old(self)@, value@) {
                    Some(p) => final(self)@ == p.0 && r@ == p.1,
                    None => handle_step_unordered(old(self)@, value@, final(self)@, r@),
                }
            }),
    {
        let ghost req = value@;
        let items = match value {
            ResponseValue::Array(Some(items)) => items,
            _ => {
                return error_reply(not_array_bytes());
            },
        };
        proof {
            assert(req->Array_0.unwrap() == rv_views(items@));
            lemma_rv_views(items@);
        }
        if items.len() == 0 {
            return error_reply(empty_request_bytes());
        }
        let ghost models = rv_views(items@);
        proof {
            assert(models[0] == rv_view(items@[0]));
        }
        let cmd = match &items[0] {
            ResponseValue::BulkString(Some(b)) => b,
            _ => {
                return error_reply(cmd_not_bulk_bytes());
            },
        };
        proof {
            assert(bulk_val(models[0]) == bytes_view(*cmd));
        }
        let nm_ping = name_ping_bytes();
        if cmd_matches(cmd, &nm_ping) {
            return ResponseValue::SimpleString(bytes_from_vec(pong_bytes()));
        }
        let nm_config = name_config_bytes();
        if cmd_matches(cmd, &nm_config) {
            return ResponseValue::Array(None);
        }
        let nm_get = name_get_bytes();
        if cmd_matches(cmd, &nm_get) {
            return self.handle_get(&items);
        }
        let nm_set = name_set_bytes();
        if cmd_matches(cmd, &nm_set) {
            return self.handle_set(&items);
        }
        let nm_lpush = name_lpush_bytes();
        if cmd_matches(cmd, &nm_lpush) {
            return self.handle_push(&items, true);
        }
        let nm_lpop = name_lpop_bytes();
        if cmd_matches(cmd, &nm_lpop) {
            return self.handle_pop(&items, true);
        }
        let nm_rpush = name_rpush_bytes();
        if cmd_matches(cmd, &nm_rpush) {
            return self.handle_push(&items, false);
        }
        let nm_rpop = name_rpop_bytes();
        if cmd_matches(cmd, &nm_rpop) {
            return self.handle_pop(&items, false);
        }
        let nm_lrange = name_lrange_bytes();
        if cmd_matches(cmd, &nm_lrange) {
            return self.handle_lrange(&items);
        }
        let nm_sadd = name_sadd_bytes();
        if cmd_matches(cmd, &nm_sadd) {
            return self.handle_sadd(&items);
        }
        let nm_spop = name_spop_bytes();
        if cmd_matches(cmd, &nm_spop) {
            return self.handle_spop(&items);
        }
        let nm_smembers = name_smembers_bytes();
        if cmd_matches(cmd, &nm_smembers) {
            return self.handle_smembers(&items);
        }
        error_reply(invalid_command_bytes())
    }
}

} // verus!
