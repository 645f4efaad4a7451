//! RESP2 values: the abstract model, the executable representation with
//! zero-copy payloads, and the wire serializer.
use vstd::prelude::*;
use crate::byteops::{bytes_view, bm_view, bytes_len, bm_push_byte, bm_push_slice, bm_push_bytes};
use crate::num::{dec_digits, dec_int, i64_to_dec, u64_to_dec, MINUS_SIGN, ZERO_DIGIT};

verus! {

pub const CR: u8 = 13;
pub const LF: u8 = 10;
pub const MARK_SIMPLE: u8 = 43;
pub const MARK_ERROR: u8 = 45;
pub const MARK_INT: u8 = 58;
pub const MARK_BULK: u8 = 36;
pub const MARK_ARRAY: u8 = 42;

/// The mathematical form of a RESP2 value.
#[verifier::ext_equal]
pub enum RespData {
    Simple(Seq<u8>),
    Error(Seq<u8>),
    Integer(i64),
    Bulk(Option<Seq<u8>>),
    Array(Option<Seq<RespData>>),
}

/// A value whose serialization parses back to itself: line-oriented
/// variants contain no CR or LF, and array elements are themselves
/// well formed. Bulk payloads are unrestricted.
pub open spec fn resp_wf(v: RespData) -> bool
    decreases v,
{
    match v {
        RespData::Simple(s) => forall|j: int| 0 <= j < s.len() ==> s[j] != CR && s[j] != LF,
        RespData::Error(s) => forall|j: int| 0 <= j < s.len() ==> s[j] != CR && s[j] != LF,
        RespData::Integer(_) => true,
        RespData::Bulk(None) => true,
        RespData::Bulk(Some(p)) => p.len() <= i64::MAX,
        RespData::Array(None) => true,
        RespData::Array(Some(items)) => items.len() <= i64::MAX && forall|j: int|
            0 <= j < items.len() ==> resp_wf(#[trigger] items[j]),
    }
}

pub open spec fn crlf() -> Seq<u8> {
    seq![CR, LF]
}

/// The wire bytes of a RESP2 value.
pub open spec fn spec_encode(v: RespData) -> Seq<u8>
    decreases v,
{
    match v {
        RespData::Simple(s) => seq![MARK_SIMPLE] + s + crlf(),
        RespData::Error(s) => seq![MARK_ERROR] + s + crlf(),
        RespData::Integer(i) => seq![MARK_INT] + dec_int(i as int) + crlf(),
        RespData::Bulk(None) => seq![MARK_BULK, MINUS_SIGN, (ZERO_DIGIT + 1) as u8, CR, LF],
        RespData::Bulk(Some(p)) => seq![MARK_BULK] + dec_digits(p.len()) + crlf() + p + crlf(),
        RespData::Array(None) => seq![MARK_ARRAY, MINUS_SIGN, (ZERO_DIGIT + 1) as u8, CR, LF],
        RespData::Array(Some(items)) => seq![MARK_ARRAY] + dec_digits(items.len()) + crlf()
            + spec_encode_list(items),
    }
}

/// The wire bytes of a run of RESP2 values, in order.
pub open spec fn spec_encode_list(items: Seq<RespData>) -> Seq<u8>
    decreases items,
{
    if items.len() == 0 {
        Seq::empty()
    } else {
        spec_encode(items[0]) + spec_encode_list(items.drop_first())
    }
}

/// Encoding a run of values one longer appends the encoding of the last.
pub proof fn lemma_encode_list_push(items: Seq<RespData>, x: RespData)
    ensures
        spec_encode_list(items.push(x)) == spec_encode_list(items) + spec_encode(x),
    decreases items.len(),
{
    if items.len() == 0 {
        assert(items.push(x)[0] == x);
        assert(items.push(x).drop_first() =~= Seq::<RespData>::empty());
        assert(spec_encode_list(Seq::<RespData>::empty()) == Seq::<u8>::empty());
        assert(spec_encode_list(items.push(x)) == spec_encode(x) + Seq::<u8>::empty());
        assert(spec_encode(x) + Seq::<u8>::empty() =~= spec_encode(x));
        assert(spec_encode_list(items) + spec_encode(x) =~= spec_encode(x));
    } else {
        lemma_encode_list_push(items.drop_first(), x);
        assert(items.push(x).drop_first() =~= items.drop_first().push(x));
        assert(items.push(x)[0] == items[0]);
        assert(spec_encode_list(items.push(x)) == spec_encode(items[0]) + (spec_encode_list(
            items.drop_first(),
        ) + spec_encode(x)));
        assert(spec_encode(items[0]) + (spec_encode_list(items.drop_first()) + spec_encode(x)) =~= (
        spec_encode(items[0]) + spec_encode_list(items.drop_first())) + spec_encode(x));
    }
}

/// The abstract values of a run of `ResponseValue`s, elementwise.
pub open spec fn rv_views(items: Seq<ResponseValue>) -> Seq<RespData>
    decreases items,
{
    if items.len() == 0 {
        Seq::empty()
    } else {
        seq![rv_view(items[0])] + rv_views(items.drop_first())
    }
}

/// `rv_views` maps `rv_view` over the run, elementwise.
pub proof fn lemma_rv_views(items: Seq<ResponseValue>)
    ensures
        rv_views(items).len() == items.len(),
        forall|j: int| 0 <= j < items.len() ==> rv_views(items)[j] == rv_view(#[trigger] items[j]),
    decreases items.len(),
{
    if items.len() > 0 {
        lemma_rv_views(items.drop_first());
        assert forall|j: int| 0 <= j < items.len() implies rv_views(items)[j] == rv_view(
            #[trigger] items[j],
        ) by {
            if j > 0 {
                assert(items.drop_first()[j - 1] == items[j]);
                assert(rv_views(items)[j] == rv_views(items.drop_first())[j - 1]);
            }
        }
    }
}

/// Appending a value appends its abstract view.
pub proof fn lemma_rv_views_push(items: Seq<ResponseValue>, x: ResponseValue)
    ensures
        rv_views(items.push(x)) == rv_views(items).push(rv_view(x)),
{
    lemma_rv_views(items.push(x));
    lemma_rv_views(items);
    assert forall|q: int| 0 <= q < items.len() + 1 implies rv_views(items.push(x))[q] == rv_views(
        items,
    ).push(rv_view(x))[q] by {
        assert(rv_views(items.push(x))[q] == rv_view(items.push(x)[q]));
        if q < items.len() {
            assert(items.push(x)[q] == items[q]);
        } else {
            assert(items.push(x)[q] == x);
        }
    }
    assert(rv_views(items.push(x)) =~= rv_views(items).push(rv_view(x)));
}

/// A RESP2 value as carried at run time. Bulk payloads and one-line texts
/// are reference-counted windows into the buffer they were parsed from.
#[derive(Debug, PartialEq)]
pub enum ResponseValue {
    SimpleString(bytes::Bytes),
    Error(bytes::Bytes),
    Integer(i64),
    BulkString(Option<bytes::Bytes>),
    Array(Option<Vec<ResponseValue>>),
}

/// The abstract value a `ResponseValue` stands for.
pub open spec fn rv_view(v: ResponseValue) -> RespData
    decreases v,
{
    match v {
        ResponseValue::SimpleString(s) => RespData::Simple(bytes_view(s)),
        ResponseValue::Error(s) => RespData::Error(bytes_view(s)),
        ResponseValue::Integer(i) => RespData::Integer(i),
        ResponseValue::BulkString(None) => RespData::Bulk(None),
        ResponseValue::BulkString(Some(p)) => RespData::Bulk(Some(bytes_view(p))),
        ResponseValue::Array(None) => RespData::Array(None),
        ResponseValue::Array(Some(items)) => RespData::Array(Some(rv_views(items@))),
    }
}

impl View for ResponseValue {
    type V = RespData;

    open spec fn view(&self) -> RespData {
        rv_view(*self)
    }
}

impl Clone for ResponseValue {
    /// A clone stands for the same abstract value; payload handles share
    /// their backing memory.
    #[verifier::loop_isolation(false)]
    fn clone(&self) -> (r: Self)
        ensures
            r@ == self@,
        decreases *self,
    {
        match self {
            ResponseValue::SimpleString(s) => ResponseValue::SimpleString(s.clone()),
            ResponseValue::Error(s) => ResponseValue::Error(s.clone()),
            ResponseValue::Integer(i) => ResponseValue::Integer(*i),
            ResponseValue::BulkString(None) => ResponseValue::BulkString(None),
            ResponseValue::BulkString(Some(p)) => ResponseValue::BulkString(Some(p.clone())),
            ResponseValue::Array(None) => ResponseValue::Array(None),
            ResponseValue::Array(Some(items)) => {
                let mut out: Vec<ResponseValue> = Vec::new();
                let mut k: usize = 0;
                while k < items.len()
                    invariant
                        k <= items@.len(),
                        out@.len() == k,
                        forall|j: int| 0 <= j < k ==> rv_view(#[trigger] out@[j]) == rv_view(
                            items@[j],
                        ),
                    decreases items@.len() - k,
                {
                    out.push(items[k].clone());
                    k += 1;
                }
                let r = ResponseValue::Array(Some(out));
                proof {
                    lemma_rv_views(out@);
                    lemma_rv_views(items@);
                    assert forall|j: int| 0 <= j < items@.len() implies rv_views(out@)[j]
                        == rv_views(items@)[j] by {
                        assert(rv_views(out@)[j] == rv_view(out@[j]));
                        assert(rv_views(items@)[j] == rv_view(items@[j]));
                    }
                    assert(rv_views(out@) =~= rv_views(items@));
                }
                r
            },
        }
    }
}

impl ResponseValue {
    /// Appends the wire form of this value to `dst`.
    #[verifier::loop_isolation(false)]
    pub fn serialize(&self, dst: &mut bytes::BytesMut)
        ensures
            bm_view(*final(dst)) == bm_view(*old(dst)) + spec_encode(self@),
        decreases *self,
    {
        let ghost base = bm_view(*dst);
        match self {
            ResponseValue::SimpleString(s) => {
                bm_push_byte(dst, MARK_SIMPLE);
                bm_push_bytes(dst, s);
                bm_push_byte(dst, CR);
                bm_push_byte(dst, LF);
                proof {
                    assert(bm_view(*dst) =~= base + spec_encode(self@));
                }
            },
            ResponseValue::Error(s) => {
                bm_push_byte(dst, MARK_ERROR);
                bm_push_bytes(dst, s);
                bm_push_byte(dst, CR);
                bm_push_byte(dst, LF);
                proof {
                    assert(bm_view(*dst) =~= base + spec_encode(self@));
                }
            },
            ResponseValue::Integer(i) => {
                bm_push_byte(dst, MARK_INT);
                let text = i64_to_dec(*i);
                bm_push_slice(dst, text.as_slice());
                bm_push_byte(dst, CR);
                bm_push_byte(dst, LF);
                proof {
                    assert(bm_view(*dst) =~= base + spec_encode(self@));
                }
            },
            ResponseValue::BulkString(None) => {
                bm_push_byte(dst, MARK_BULK);
                bm_push_byte(dst, MINUS_SIGN);
                bm_push_byte(dst, ZERO_DIGIT + 1);
                bm_push_byte(dst, CR);
                bm_push_byte(dst, LF);
                proof {
                    assert(bm_view(*dst) =~= base + spec_encode(self@));
                }
            },
            ResponseValue::BulkString(Some(p)) => {
                bm_push_byte(dst, MARK_BULK);
                let n = bytes_len(p);
                let text = u64_to_dec(n as u64);
                bm_push_slice(dst, text.as_slice());
                bm_push_byte(dst, CR);
                bm_push_byte(dst, LF);
                bm_push_bytes(dst, p);
                bm_push_byte(dst, CR);
                bm_push_byte(dst, LF);
                proof {
                    assert(bm_view(*dst) =~= base + spec_encode(self@));
                }
            },
            ResponseValue::Array(None) => {
                bm_push_byte(dst, MARK_ARRAY);
                bm_push_byte(dst, MINUS_SIGN);
                bm_push_byte(dst, ZERO_DIGIT + 1);
                bm_push_byte(dst, CR);
                bm_push_byte(dst, LF);
                proof {
                    assert(bm_view(*dst) =~= base + spec_encode(self@));
                }
            },
            ResponseValue::Array(Some(items)) => {
                bm_push_byte(dst, MARK_ARRAY);
                let n = items.len();
                let text = u64_to_dec(n as u64);
                bm_push_slice(dst, text.as_slice());
                bm_push_byte(dst, CR);
                bm_push_byte(dst, LF);
                let ghost models = rv_views(items@);
                let ghost header = seq![MARK_ARRAY] + dec_digits(models.len()) + crlf();
                proof {
                    lemma_rv_views(items@);
                    assert(bm_view(*dst) =~= base + header);
                    assert(models.take(0) =~= Seq::<RespData>::empty());
                    assert(spec_encode_list(models.take(0)) == Seq::<u8>::empty());
                    assert(base + header + spec_encode_list(models.take(0)) =~= bm_view(*dst));
                }
                let mut k: usize = 0;
                while k < items.len()
                    invariant
                        k <= items@.len(),
                        models.len() == items@.len(),
                        forall|j: int| 0 <= j < items@.len() ==> models[j] == rv_view(
                            #[trigger] items@[j],
                        ),
                        bm_view(*dst) == base + header + spec_encode_list(models.take(k as int)),
                    decreases items@.len() - k,
                {
                    items[k].serialize(dst);
                    proof {
                        lemma_encode_list_push(models.take(k as int), models[k as int]);
                        assert(models.take(k as int).push(models[k as int]) =~= models.take(
                            k + 1,
                        ));
                        assert(bm_view(*dst) =~= base + header + spec_encode_list(
                            models.take(k + 1),
                        ));
                    }
                    k += 1;
                }
                proof {
                    assert(models.take(models.len() as int) =~= models);
                    assert(bm_view(*dst) =~= base + spec_encode(self@));
                }
            },
        }
    }
}

/// A parsed request on its way to a shard, tagged with its per-connection
/// sequence number.
pub struct WorkerMessage {
    pub seq: u64,
    pub response_value: ResponseValue,
}

/// A computed reply on its way back to a connection's writer, tagged with
/// the sequence number of the request it answers.
pub struct ResponseMessage {
    pub seq: u64,
    pub response_value: ResponseValue,
}

} // verus!
