//! The incremental RESP2 frame parser.
//!
//! `spec_parse` is the grammar: a mathematical function from a byte sequence
//! to the parsed value and its exact length, or to the error the protocol
//! assigns. The executable parser is proved to implement it, removing a
//! parsed frame from the head of the buffer and leaving the buffer unchanged
//! on `Incomplete` or on any protocol error.
use vstd::prelude::*;
use crate::byteops::{
    bytes_view,
    bm_view,
    bytes_len,
    bytes_at,
    bytes_slice,
    bm_len,
    bm_at,
    bm_split_to,
    bm_freeze,
    bytes_to_vec,
};
use crate::message::{crlf, lemma_rv_views, lemma_rv_views_push, resp_wf, spec_encode,
    spec_encode_list, CR, LF, MARK_SIMPLE, MARK_ERROR, MARK_INT, MARK_BULK, MARK_ARRAY, RespData,
    ResponseValue, rv_view, rv_views};
use crate::num::{
    dec_int,
    dec_digits,
    lemma_dec_digits_shape,
    lemma_int_literal_of_dec,
    is_digit,
    all_digits,
    digits_val,
    int_literal_ok,
    int_literal_val,
    i64_literal_ok,
    lemma_digits_val_push,
    ZERO_DIGIT,
    NINE_DIGIT,
    PLUS_SIGN,
    MINUS_SIGN,
};

verus! {

/// Why a parse attempt did not yield a value.
#[derive(Debug, PartialEq, Eq, Structural, Clone, Copy)]
pub enum BufParseError {
    /// The buffer does not yet hold a whole frame; read more bytes.
    Incomplete,
    /// The leading byte selects no RESP2 type; the connection must be dropped.
    InvalidFirstByte(u8),
    /// A bulk-string or array length header is not a decimal integer.
    MalformedLength,
    /// An integer frame's body is not a decimal integer that fits an `i64`.
    MalformedInteger,
    /// A CR without LF, or a bulk payload not followed by CRLF.
    MalformedTerminator,
}

/// Outcome of reading one CRLF-terminated line: the content and the bytes
/// consumed (content plus two), or a failure.
#[verifier::ext_equal]
pub enum LineOut {
    Line(Seq<u8>, int),
    Fail(BufParseError),
}

/// Outcome of parsing one frame: the value and the bytes consumed, or a
/// failure.
#[verifier::ext_equal]
pub enum ParseOut {
    Val(RespData, int),
    Fail(BufParseError),
}

/// Outcome of parsing a fixed number of consecutive frames.
#[verifier::ext_equal]
pub enum ElemsOut {
    Vals(Seq<RespData>, int),
    Fail(BufParseError),
}

pub open spec fn is_alpha(b: u8) -> bool {
    (65 <= b <= 90) || (97 <= b <= 122)
}

pub open spec fn is_sep(b: u8) -> bool {
    b == 32 || b == 9
}

/// Reads up to the first CR, which must be followed by LF.
pub open spec fn spec_line(s: Seq<u8>) -> LineOut
    decreases s.len(),
{
    if s.len() == 0 {
        LineOut::Fail(BufParseError::Incomplete)
    } else if s[0] == CR {
        if s.len() == 1 {
            LineOut::Fail(BufParseError::Incomplete)
        } else if s[1] == LF {
            LineOut::Line(Seq::empty(), 2)
        } else {
            LineOut::Fail(BufParseError::MalformedTerminator)
        }
    } else {
        match spec_line(s.drop_first()) {
            LineOut::Line(c, n) => LineOut::Line(seq![s[0]] + c, n + 1),
            LineOut::Fail(e) => LineOut::Fail(e),
        }
    }
}

/// The length of the leading run of non-separator bytes.
pub open spec fn word_len(c: Seq<u8>) -> nat
    decreases c.len(),
{
    if c.len() == 0 || is_sep(c[0]) {
        0
    } else {
        1 + word_len(c.drop_first())
    }
}

/// The non-empty words of an inline command line, in order.
pub open spec fn split_words(c: Seq<u8>) -> Seq<Seq<u8>>
    decreases c.len(),
{
    if c.len() == 0 {
        Seq::empty()
    } else if is_sep(c[0]) {
        split_words(c.drop_first())
    } else if word_len(c) < 1 || word_len(c) > c.len() {
        Seq::empty()
    } else {
        seq![c.take(word_len(c) as int)] + split_words(c.skip(word_len(c) as int))
    }
}

/// Each inline word as a RESP bulk string.
pub open spec fn words_to_resp(ws: Seq<Seq<u8>>) -> Seq<RespData> {
    Seq::new(ws.len(), |i: int| RespData::Bulk(Some(ws[i])))
}

/// The RESP2 grammar: what one frame at the head of `s` parses to, and how
/// many bytes it occupies.
pub open spec fn spec_parse(s: Seq<u8>) -> ParseOut
    decreases s.len(), 1nat,
{
    if s.len() == 0 {
        ParseOut::Fail(BufParseError::Incomplete)
    } else if s[0] == MARK_SIMPLE {
        match spec_line(s.drop_first()) {
            LineOut::Line(c, n) => ParseOut::Val(RespData::Simple(c), 1 + n),
            LineOut::Fail(e) => ParseOut::Fail(e),
        }
    } else if s[0] == MARK_ERROR {
        match spec_line(s.drop_first()) {
            LineOut::Line(c, n) => ParseOut::Val(RespData::Error(c), 1 + n),
            LineOut::Fail(e) => ParseOut::Fail(e),
        }
    } else if s[0] == MARK_INT {
        match spec_line(s.drop_first()) {
            LineOut::Line(c, n) => if i64_literal_ok(c) {
                ParseOut::Val(RespData::Integer(int_literal_val(c) as i64), 1 + n)
            } else {
                ParseOut::Fail(BufParseError::MalformedInteger)
            },
            LineOut::Fail(e) => ParseOut::Fail(e),
        }
    } else if s[0] == MARK_BULK {
        match spec_line(s.drop_first()) {
            LineOut::Line(c, n) => if !i64_literal_ok(c) {
                ParseOut::Fail(BufParseError::MalformedLength)
            } else {
                let l = int_literal_val(c);
                if l < 0 {
                    ParseOut::Val(RespData::Bulk(None), 1 + n)
                } else if s.len() < 1 + n + l + 2 {
                    ParseOut::Fail(BufParseError::Incomplete)
                } else if s[1 + n + l] == CR && s[1 + n + l + 1] == LF {
                    ParseOut::Val(RespData::Bulk(Some(s.subrange(1 + n, 1 + n + l))), 1 + n + l + 2)
                } else {
                    ParseOut::Fail(BufParseError::MalformedTerminator)
                }
            },
            LineOut::Fail(e) => ParseOut::Fail(e),
        }
    } else if s[0] == MARK_ARRAY {
        match spec_line(s.drop_first()) {
            LineOut::Line(c, n) => if !i64_literal_ok(c) {
                ParseOut::Fail(BufParseError::MalformedLength)
            } else {
                let m = int_literal_val(c);
                if m < 0 {
                    ParseOut::Val(RespData::Array(None), 1 + n)
                } else if n < 2 || 1 + n > s.len() {
                    ParseOut::Fail(BufParseError::Incomplete)
                } else {
                    match spec_elems(s.skip(1 + n), m as nat) {
                        ElemsOut::Vals(items, k) => ParseOut::Val(
                            RespData::Array(Some(items)),
                            1 + n + k,
                        ),
                        ElemsOut::Fail(e) => ParseOut::Fail(e),
                    }
                }
            },
            LineOut::Fail(e) => ParseOut::Fail(e),
        }
    } else if is_alpha(s[0]) {
        match spec_line(s) {
            LineOut::Line(c, n) => ParseOut::Val(
                RespData::Array(Some(words_to_resp(split_words(c)))),
                n,
            ),
            LineOut::Fail(e) => ParseOut::Fail(e),
        }
    } else {
        ParseOut::Fail(BufParseError::InvalidFirstByte(s[0]))
    }
}

/// `m` consecutive frames at the head of `s`.
pub open spec fn spec_elems(s: Seq<u8>, m: nat) -> ElemsOut
    decreases s.len(), 2nat,
{
    if m == 0 {
        ElemsOut::Vals(Seq::empty(), 0)
    } else {
        match spec_parse(s) {
            ParseOut::Val(v, k) => if k < 1 || k > s.len() {
                ElemsOut::Fail(BufParseError::Incomplete)
            } else {
                match spec_elems(s.skip(k), (m - 1) as nat) {
                    ElemsOut::Vals(vs, k2) => ElemsOut::Vals(seq![v] + vs, k + k2),
                    ElemsOut::Fail(e) => ElemsOut::Fail(e),
                }
            },
            ParseOut::Fail(e) => ElemsOut::Fail(e),
        }
    }
}

/// What a successful `spec_line` says of the bytes: content is the CR-free
/// prefix, followed literally by CR LF.
pub proof fn lemma_spec_line_shape(s: Seq<u8>)
    ensures
        spec_line(s) matches LineOut::Line(c, n) ==> {
            &&& n == c.len() + 2
            &&& 2 <= n <= s.len()
            &&& c == s.subrange(0, c.len() as int)
            &&& forall|j: int| 0 <= j < c.len() ==> c[j] != CR
            &&& s[c.len() as int] == CR
            &&& s[c.len() + 1int] == LF
        },
    decreases s.len(),
{
    if s.len() == 0 {
    } else if s[0] == CR {
    } else {
        lemma_spec_line_shape(s.drop_first());
        let l = spec_line(s.drop_first());
        if l is Line {
            let c0 = l->Line_0;
            let c = seq![s[0]] + c0;
            assert(c =~= s.subrange(0, c.len() as int));
            assert(s.drop_first()[c0.len() as int] == s[c.len() as int]);
            assert(s.drop_first()[c0.len() + 1int] == s[c.len() + 1int]);
        }
    }
}

/// A buffer with no CR yet holds no complete line.
pub proof fn lemma_line_no_cr(s: Seq<u8>)
    requires
        forall|j: int| 0 <= j < s.len() ==> s[j] != CR,
    ensures
        spec_line(s) == LineOut::Fail(BufParseError::Incomplete),
    decreases s.len(),
{
    if s.len() > 0 {
        lemma_line_no_cr(s.drop_first());
    }
}

/// What `spec_line` yields when the first CR sits at index `i`.
pub proof fn lemma_line_cr_at(s: Seq<u8>, i: int)
    requires
        0 <= i < s.len(),
        s[i] == CR,
        forall|j: int| 0 <= j < i ==> s[j] != CR,
    ensures
        i + 1 == s.len() ==> spec_line(s) == LineOut::Fail(BufParseError::Incomplete),
        i + 1 < s.len() && s[i + 1] == LF ==> spec_line(s) == LineOut::Line(s.subrange(0, i), i + 2),
        i + 1 < s.len() && s[i + 1] != LF ==> spec_line(s) == LineOut::Fail(
            BufParseError::MalformedTerminator,
        ),
    decreases i,
{
    if i == 0 {
        if 1 < s.len() && s[1] == LF {
            assert(s.subrange(0, 0) =~= Seq::<u8>::empty());
            assert(spec_line(s) =~= LineOut::Line(s.subrange(0, 0), 2));
        }
    } else {
        lemma_line_cr_at(s.drop_first(), i - 1);
        if i + 1 < s.len() && s[i + 1] == LF {
            assert(seq![s[0]] + s.drop_first().subrange(0, i - 1) =~= s.subrange(0, i));
            assert(spec_line(s) =~= LineOut::Line(s.subrange(0, i), i + 2));
        }
    }
}

/// A CR-free content followed by CRLF and anything reads back as that line.
pub proof fn lemma_line_of_content(c: Seq<u8>, rest: Seq<u8>)
    requires
        forall|j: int| 0 <= j < c.len() ==> c[j] != CR,
    ensures
        spec_line(c + crlf() + rest) == LineOut::Line(c, c.len() + 2int),
    decreases c.len(),
{
    let s = c + crlf() + rest;
    if c.len() == 0 {
        assert(s[0] == CR && s[1] == LF);
        assert(spec_line(s) =~= LineOut::Line(c, c.len() + 2int));
    } else {
        lemma_line_of_content(c.drop_first(), rest);
        assert(s.drop_first() =~= c.drop_first() + crlf() + rest);
        assert(s[0] == c[0]);
        assert(seq![c[0]] + c.drop_first() =~= c);
        assert(spec_line(s) =~= LineOut::Line(c, c.len() + 2int));
    }
}

/// Any strict prefix of a line is incomplete.
pub proof fn lemma_line_prefix(c: Seq<u8>, p: Seq<u8>)
    requires
        forall|j: int| 0 <= j < c.len() ==> c[j] != CR,
        p.len() < c.len() + 2,
        p == (c + crlf()).subrange(0, p.len() as int),
    ensures
        spec_line(p) == LineOut::Fail(BufParseError::Incomplete),
{
    if p.len() <= c.len() {
        assert forall|j: int| 0 <= j < p.len() implies p[j] != CR by {
            assert(p[j] == c[j]);
        }
        lemma_line_no_cr(p);
    } else {
        assert(p.len() == c.len() + 1);
        assert(p[c.len() as int] == CR);
        assert forall|j: int| 0 <= j < c.len() implies p[j] != CR by {
            assert(p[j] == c[j]);
        }
        lemma_line_cr_at(p, c.len() as int);
    }
}

/// A parsed frame occupies at least one byte and at most the whole buffer;
/// a parsed run of `m` frames has exactly `m` values.
pub proof fn lemma_parse_bounds(s: Seq<u8>)
    ensures
        spec_parse(s) matches ParseOut::Val(v, k) ==> 1 <= k <= s.len(),
    decreases s.len(), 1nat,
{
    if s.len() == 0 {
    } else {
        lemma_spec_line_shape(s.drop_first());
        lemma_spec_line_shape(s);
        if s[0] == MARK_ARRAY {
            let l = spec_line(s.drop_first());
            if l is Line {
                let c = l->Line_0;
                let n = l->Line_1;
                if i64_literal_ok(c) && int_literal_val(c) >= 0 && n >= 2 && 1 + n <= s.len() {
                    lemma_elems_bounds(s.skip(1 + n), int_literal_val(c) as nat);
                }
            }
        }
    }
}

/// Companion bound for runs of frames.
pub proof fn lemma_elems_bounds(s: Seq<u8>, m: nat)
    ensures
        spec_elems(s, m) matches ElemsOut::Vals(vs, k) ==> vs.len() == m && 0 <= k <= s.len(),
    decreases s.len(), 2nat,
{
    if m == 0 {
    } else {
        lemma_parse_bounds(s);
        let p = spec_parse(s);
        if p is Val {
            let k = p->Val_1;
            if 1 <= k <= s.len() {
                lemma_elems_bounds(s.skip(k), (m - 1) as nat);
            }
        }
    }
}



/// Composition of frame-run outcomes: values and consumed bytes already
/// accounted for, followed by the outcome of the remaining run.
pub open spec fn elems_compose(pre: Seq<RespData>, consumed: int, rest: ElemsOut) -> ElemsOut {
    match rest {
        ElemsOut::Vals(vs, k) => ElemsOut::Vals(pre + vs, consumed + k),
        ElemsOut::Fail(e) => ElemsOut::Fail(e),
    }
}

pub proof fn lemma_elems_compose_zero(x: ElemsOut)
    ensures
        elems_compose(Seq::empty(), 0, x) == x,
{
    match x {
        ElemsOut::Vals(vs, k) => {
            assert(Seq::empty() + vs =~= vs);
            assert(elems_compose(Seq::empty(), 0, x) =~= x);
        },
        ElemsOut::Fail(_) => {},
    }
}

pub proof fn lemma_elems_compose_assoc(
    p1: Seq<RespData>,
    c1: int,
    p2: Seq<RespData>,
    c2: int,
    x: ElemsOut,
)
    ensures
        elems_compose(p1, c1, elems_compose(p2, c2, x)) == elems_compose(p1 + p2, c1 + c2, x),
{
    match x {
        ElemsOut::Vals(vs, k) => {
            assert(p1 + (p2 + vs) =~= (p1 + p2) + vs);
            assert(elems_compose(p1, c1, elems_compose(p2, c2, x)) =~= elems_compose(
                p1 + p2,
                c1 + c2,
                x,
            ));
        },
        ElemsOut::Fail(_) => {},
    }
}

/// Peeling one parsed frame off the front of a run of `m`.
pub proof fn lemma_elems_step(s: Seq<u8>, m: nat)
    requires
        m > 0,
        spec_parse(s) is Val,
    ensures
        spec_elems(s, m) == elems_compose(
            seq![spec_parse(s)->Val_0],
            spec_parse(s)->Val_1,
            spec_elems(s.skip(spec_parse(s)->Val_1), (m - 1) as nat),
        ),
{
    lemma_parse_bounds(s);
    let v = spec_parse(s)->Val_0;
    let k = spec_parse(s)->Val_1;
    match spec_elems(s.skip(k), (m - 1) as nat) {
        ElemsOut::Vals(vs, k2) => {
            assert(spec_elems(s, m) =~= ElemsOut::Vals(seq![v] + vs, k + k2));
        },
        ElemsOut::Fail(_) => {},
    }
}

/// Copies the bytes of `buf[start..end]` into a fresh vector.
#[verifier::loop_isolation(false)]
pub fn bm_range_to_vec(buf: &bytes::BytesMut, start: usize, end: usize) -> (v: Vec<u8>)
    requires
        start <= end <= bm_view(*buf).len(),
    ensures
        v@ == bm_view(*buf).subrange(start as int, end as int),
{
    let mut v: Vec<u8> = Vec::new();
    let mut j: usize = start;
    while j < end
        invariant
            start <= j <= end,
            v@ =~= bm_view(*buf).subrange(start as int, j as int),
        decreases end - j,
    {
        v.push(bm_at(buf, j));
        proof {
            assert(v@ =~= bm_view(*buf).subrange(start as int, j + 1));
        }
        j += 1;
    }
    v
}

/// Reads a signed decimal literal, accepting exactly the values an `i64`
/// can hold.
#[verifier::loop_isolation(false)]
pub fn parse_i64_slice(s: &[u8]) -> (r: Option<i64>)
    ensures
        match r {
            Some(v) => i64_literal_ok(s@) && v == int_literal_val(s@),
            None => !i64_literal_ok(s@),
        },
{
    if s.len() == 0 {
        return None;
    }
    let b0 = s[0];
    let neg = b0 == MINUS_SIGN;
    let start: usize = if b0 == PLUS_SIGN || b0 == MINUS_SIGN {
        1
    } else {
        0
    };
    if s.len() == start {
        return None;
    }
    let ghost digits = s@.skip(start as int);
    let mut mag: u64 = 0;
    let mut too_big = false;
    let mut i: usize = start;
    while i < s.len()
        invariant
            start <= i <= s@.len(),
            all_digits(s@.subrange(start as int, i as int)),
            !too_big ==> mag == digits_val(s@.subrange(start as int, i as int)) && mag
                <= 9223372036854775808,
            too_big ==> digits_val(s@.subrange(start as int, i as int)) > 9223372036854775808,
        decreases s@.len() - i,
    {
        let b = s[i];
        if b < ZERO_DIGIT || b > NINE_DIGIT {
            proof {
                if b0 == PLUS_SIGN || b0 == MINUS_SIGN {
                    assert(s@.skip(1)[i - 1] == b);
                    assert(!all_digits(s@.skip(1)));
                } else {
                    assert(!all_digits(s@));
                }
            }
            return None;
        }
        let ghost d = s@.subrange(start as int, i as int);
        proof {
            assert(d.push(b) =~= s@.subrange(start as int, i + 1));
            lemma_digits_val_push(d, b);
        }
        if !too_big {
            if mag >= 922337203685477581 {
                proof {
                    assert(digits_val(d) * 10 >= 922337203685477581 * 10) by (nonlinear_arith)
                        requires
                            digits_val(d) >= 922337203685477581,
                    ;
                }
                too_big = true;
            } else {
                mag = mag * 10 + (b - ZERO_DIGIT) as u64;
                if mag > 9223372036854775808 {
                    too_big = true;
                }
            }
        } else {
            proof {
                assert(digits_val(d) * 10 >= digits_val(d)) by (nonlinear_arith);
            }
        }
        i += 1;
    }
    proof {
        assert(s@.subrange(start as int, s@.len() as int) =~= digits);
        if start == 1 {
            assert(digits =~= s@.skip(1));
        } else {
            assert(digits =~= s@);
        }
        assert(int_literal_ok(s@));
        if b0 == MINUS_SIGN {
            assert(int_literal_val(s@) == -(digits_val(digits) as int));
        } else {
            assert(int_literal_val(s@) == digits_val(digits) as int);
        }
    }
    if too_big {
        return None;
    }
    if neg {
        if mag == 9223372036854775808 {
            Some(i64::MIN)
        } else {
            Some(-(mag as i64))
        }
    } else {
        if mag <= 9223372036854775807 {
            Some(mag as i64)
        } else {
            None
        }
    }
}


/// Finds the end of the CRLF-terminated line starting at `pos`.
#[verifier::loop_isolation(false)]
fn line_end_from(buf: &bytes::BytesMut, pos: usize) -> (r: Result<usize, BufParseError>)
    requires
        pos <= bm_view(*buf).len(),
    ensures
        ({
            let t = bm_view(*buf).skip(pos as int);
            match r {
                Ok(e) => {
                    &&& spec_line(t) is Line
                    &&& pos + spec_line(t)->Line_1 == e
                    &&& pos + 2 <= e <= bm_view(*buf).len()
                    &&& spec_line(t)->Line_0 == bm_view(*buf).subrange(pos as int, e - 2)
                },
                Err(er) => spec_line(t) == LineOut::Fail(er),
            }
        }),
{
    let ghost full = bm_view(*buf);
    let ghost t = full.skip(pos as int);
    let n = bm_len(buf);
    let mut j: usize = pos;
    while j < n && bm_at(buf, j) != CR
        invariant
            pos <= j <= n,
            forall|q: int| pos <= q < j ==> full[q] != CR,
        decreases n - j,
    {
        j += 1;
    }
    if j == n {
        proof {
            assert(forall|q: int| 0 <= q < t.len() ==> t[q] != CR);
            lemma_line_no_cr(t);
        }
        return Err(BufParseError::Incomplete);
    }
    proof {
        assert(t[j - pos] == CR);
        lemma_line_cr_at(t, j - pos);
    }
    if j + 1 == n {
        return Err(BufParseError::Incomplete);
    }
    if bm_at(buf, j + 1) != LF {
        return Err(BufParseError::MalformedTerminator);
    }
    proof {
        assert(t.subrange(0, j - pos) =~= full.subrange(pos as int, j as int));
    }
    Ok(j + 2)
}

/// Walks one frame starting at `pos`, returning the offset just past it.
#[verifier::loop_isolation(false)]
fn measure_at(buf: &bytes::BytesMut, pos: usize) -> (r: Result<usize, BufParseError>)
    requires
        pos <= bm_view(*buf).len(),
    ensures
        ({
            let s = bm_view(*buf).skip(pos as int);
            match r {
                Ok(end) => {
                    &&& spec_parse(s) is Val
                    &&& pos + spec_parse(s)->Val_1 == end
                    &&& pos < end <= bm_view(*buf).len()
                },
                Err(e) => spec_parse(s) == ParseOut::Fail(e),
            }
        }),
    decreases bm_view(*buf).len() - pos,
{
    let ghost full = bm_view(*buf);
    let ghost s = full.skip(pos as int);
    let n = bm_len(buf);
    if pos == n {
        return Err(BufParseError::Incomplete);
    }
    let b = bm_at(buf, pos);
    proof {
        assert(s[0] == b);
        assert(s.drop_first() =~= full.skip(pos + 1));
    }
    if b == MARK_SIMPLE || b == MARK_ERROR {
        match line_end_from(buf, pos + 1) {
            Ok(e) => Ok(e),
            Err(er) => {
                proof {
                    assert(spec_parse(s) == ParseOut::Fail(er));
                }
                Err(er)
            },
        }
    } else if b == MARK_INT {
        match line_end_from(buf, pos + 1) {
            Ok(e) => {
                let cvec = bm_range_to_vec(buf, pos + 1, e - 2);
                match parse_i64_slice(cvec.as_slice()) {
                    Some(_) => Ok(e),
                    None => {
                        proof {
                            assert(spec_parse(s) == ParseOut::Fail(
                                BufParseError::MalformedInteger,
                            ));
                        }
                        Err(BufParseError::MalformedInteger)
                    },
                }
            },
            Err(er) => {
                proof {
                    assert(spec_parse(s) == ParseOut::Fail(er));
                }
                Err(er)
            },
        }
    } else if b == MARK_BULK {
        match line_end_from(buf, pos + 1) {
            Ok(e) => {
                let cvec = bm_range_to_vec(buf, pos + 1, e - 2);
                match parse_i64_slice(cvec.as_slice()) {
                    Some(l) => {
                        if l < 0 {
                            Ok(e)
                        } else if (e as u128) + (l as u128) + 2 > (n as u128) {
                            proof {
                                assert(spec_parse(s) == ParseOut::Fail(BufParseError::Incomplete));
                            }
                            Err(BufParseError::Incomplete)
                        } else {
                            let end = e + (l as usize) + 2;
                            proof {
                                assert(s[end - 2 - pos] == full[end - 2]);
                                assert(s[end - 1 - pos] == full[end - 1]);
                            }
                            if bm_at(buf, end - 2) == CR && bm_at(buf, end - 1) == LF {
                                Ok(end)
                            } else {
                                proof {
                                    assert(spec_parse(s) == ParseOut::Fail(
                                        BufParseError::MalformedTerminator,
                                    ));
                                }
                                Err(BufParseError::MalformedTerminator)
                            }
                        }
                    },
                    None => {
                        proof {
                            assert(spec_parse(s) == ParseOut::Fail(BufParseError::MalformedLength));
                        }
                        Err(BufParseError::MalformedLength)
                    },
                }
            },
            Err(er) => {
                proof {
                    assert(spec_parse(s) == ParseOut::Fail(er));
                }
                Err(er)
            },
        }
    } else if b == MARK_ARRAY {
        match line_end_from(buf, pos + 1) {
            Ok(e) => {
                let cvec = bm_range_to_vec(buf, pos + 1, e - 2);
                match parse_i64_slice(cvec.as_slice()) {
                    Some(m) => {
                        if m < 0 {
                            Ok(e)
                        } else {
                            let ghost elems_start = full.skip(e as int);
                            proof {
                                assert(s.skip(1 + (e - pos - 1)) =~= elems_start);
                                lemma_elems_compose_zero(
                                    spec_elems(elems_start, m as nat),
                                );
                            }
                            let mut cur: usize = e;
                            let ghost mut pre = Seq::<RespData>::empty();
                            let mut i: i64 = 0;
                            while i < m
                                invariant
                                    e <= cur <= n,
                                    0 <= i <= m,
                                    spec_elems(elems_start, m as nat) == elems_compose(
                                        pre,
                                        cur - e,
                                        spec_elems(full.skip(cur as int), (m - i) as nat),
                                    ),
                                decreases m - i,
                            {
                                let ghost cur_s = full.skip(cur as int);
                                match measure_at(buf, cur) {
                                    Ok(end2) => {
                                        proof {
                                            let v = spec_parse(cur_s)->Val_0;
                                            let k = spec_parse(cur_s)->Val_1;
                                            lemma_elems_step(cur_s, (m - i) as nat);
                                            assert(cur_s.skip(k) =~= full.skip(end2 as int));
                                            lemma_elems_compose_assoc(
                                                pre,
                                                cur - e,
                                                seq![v],
                                                k,
                                                spec_elems(
                                                    full.skip(end2 as int),
                                                    (m - i - 1) as nat,
                                                ),
                                            );
                                            pre = pre + seq![v];
                                        }
                                        cur = end2;
                                        i += 1;
                                    },
                                    Err(er) => {
                                        proof {
                                            assert(spec_elems(
                                                full.skip(cur as int),
                                                (m - i) as nat,
                                            ) == ElemsOut::Fail(er));
                                            assert(spec_parse(s) == ParseOut::Fail(er));
                                        }
                                        return Err(er);
                                    },
                                }
                            }
                            proof {
                                assert(spec_elems(full.skip(cur as int), 0nat) == ElemsOut::Vals(
                                    Seq::empty(),
                                    0,
                                ));
                                assert(pre + Seq::<RespData>::empty() =~= pre);
                                assert(spec_elems(elems_start, m as nat) == ElemsOut::Vals(
                                    pre,
                                    cur - e,
                                ));
                                assert(spec_parse(s) is Val);
                                assert(pos + spec_parse(s)->Val_1 == cur);
                            }
                            Ok(cur)
                        }
                    },
                    None => {
                        proof {
                            assert(spec_parse(s) == ParseOut::Fail(BufParseError::MalformedLength));
                        }
                        Err(BufParseError::MalformedLength)
                    },
                }
            },
            Err(er) => {
                proof {
                    assert(spec_parse(s) == ParseOut::Fail(er));
                }
                Err(er)
            },
        }
    } else if (65 <= b && b <= 90) || (97 <= b && b <= 122) {
        match line_end_from(buf, pos) {
            Ok(e) => Ok(e),
            Err(er) => {
                proof {
                    assert(spec_parse(s) == ParseOut::Fail(er));
                }
                Err(er)
            },
        }
    } else {
        proof {
            assert(spec_parse(s) == ParseOut::Fail(BufParseError::InvalidFirstByte(b)));
        }
        Err(BufParseError::InvalidFirstByte(b))
    }
}

/// The exact byte length of the frame at the head of the buffer, or why
/// there is none.
pub fn frame_len(buf: &bytes::BytesMut) -> (r: Result<usize, BufParseError>)
    ensures
        match r {
            Ok(k) => spec_parse(bm_view(*buf)) is Val && spec_parse(bm_view(*buf))->Val_1 == k
                && 0 < k <= bm_view(*buf).len(),
            Err(e) => spec_parse(bm_view(*buf)) == ParseOut::Fail(e),
        },
{
    proof {
        assert(bm_view(*buf).skip(0) =~= bm_view(*buf));
    }
    measure_at(buf, 0)
}


/// A complete line is read the same from any buffer agreeing on its bytes.
pub proof fn lemma_line_ext(s1: Seq<u8>, s2: Seq<u8>)
    requires
        spec_line(s1) is Line,
        s2.len() >= spec_line(s1)->Line_1,
        s1.subrange(0, spec_line(s1)->Line_1) == s2.subrange(0, spec_line(s1)->Line_1),
    ensures
        spec_line(s2) == spec_line(s1),
{
    lemma_spec_line_shape(s1);
    let c = spec_line(s1)->Line_0;
    let n = spec_line(s1)->Line_1;
    assert forall|j: int| 0 <= j < n implies s2[j] == s1[j] by {
        assert(s1.subrange(0, n)[j] == s1[j]);
        assert(s2.subrange(0, n)[j] == s2[j]);
    }
    assert forall|j: int| 0 <= j < c.len() implies s2[j] != CR by {
        assert(c[j] == s1[j]);
    }
    assert(s2[c.len() as int] == CR);
    assert(s2[c.len() + 1int] == LF);
    lemma_line_cr_at(s2, c.len() as int);
    assert(s2.subrange(0, c.len() as int) =~= c);
}

/// A complete frame parses the same from any buffer agreeing on its bytes.
pub proof fn lemma_parse_ext(s1: Seq<u8>, s2: Seq<u8>)
    requires
        spec_parse(s1) is Val,
        s2.len() >= spec_parse(s1)->Val_1,
        s1.subrange(0, spec_parse(s1)->Val_1) == s2.subrange(0, spec_parse(s1)->Val_1),
    ensures
        spec_parse(s2) == spec_parse(s1),
    decreases s1.len(), 1nat,
{
    lemma_parse_bounds(s1);
    let k = spec_parse(s1)->Val_1;
    assert forall|j: int| 0 <= j < k implies s2[j] == s1[j] by {
        assert(s1.subrange(0, k)[j] == s1[j]);
        assert(s2.subrange(0, k)[j] == s2[j]);
    }
    assert(s2[0] == s1[0]);
    let b = s1[0];
    if b == MARK_SIMPLE || b == MARK_ERROR || b == MARK_INT {
        let l1 = spec_line(s1.drop_first());
        lemma_spec_line_shape(s1.drop_first());
        assert(l1 is Line);
        let n = l1->Line_1;
        assert(k == 1 + n);
        assert(s1.drop_first().subrange(0, n) =~= s2.drop_first().subrange(0, n));
        lemma_line_ext(s1.drop_first(), s2.drop_first());
    } else if b == MARK_BULK {
        let l1 = spec_line(s1.drop_first());
        lemma_spec_line_shape(s1.drop_first());
        assert(l1 is Line);
        let n = l1->Line_1;
        assert(k >= 1 + n);
        assert(s1.drop_first().subrange(0, n) =~= s2.drop_first().subrange(0, n));
        lemma_line_ext(s1.drop_first(), s2.drop_first());
        let c = l1->Line_0;
        if i64_literal_ok(c) {
            let l = int_literal_val(c);
            if l >= 0 {
                assert(s2.len() >= 1 + n + l + 2);
                assert(s2[1 + n + l] == s1[1 + n + l]);
                assert(s2[1 + n + l + 1] == s1[1 + n + l + 1]);
                if s1[1 + n + l] == CR && s1[1 + n + l + 1] == LF {
                    assert(s2.subrange(1 + n, 1 + n + l) =~= s1.subrange(1 + n, 1 + n + l));
                }
            }
        }
    } else if b == MARK_ARRAY {
        let l1 = spec_line(s1.drop_first());
        lemma_spec_line_shape(s1.drop_first());
        assert(l1 is Line);
        let n = l1->Line_1;
        lemma_elems_bounds(s1.skip(1 + n), int_literal_val(l1->Line_0) as nat);
        assert(k >= 1 + n);
        assert(s1.drop_first().subrange(0, n) =~= s2.drop_first().subrange(0, n));
        lemma_line_ext(s1.drop_first(), s2.drop_first());
        let c = l1->Line_0;
        let m = int_literal_val(c);
        assert(i64_literal_ok(c));
        if m >= 0 {
            assert(n >= 2 && 1 + n <= s1.len());
            let e1 = spec_elems(s1.skip(1 + n), m as nat);
            lemma_elems_bounds(s1.skip(1 + n), m as nat);
            let k2 = e1->Vals_1;
            assert(k == 1 + n + k2);
            assert(1 + n <= s2.len());
            assert(s1.skip(1 + n).subrange(0, k2) =~= s2.skip(1 + n).subrange(0, k2));
            lemma_elems_ext(s1.skip(1 + n), s2.skip(1 + n), m as nat);
        }
    } else {
        assert(is_alpha(b));
        let l1 = spec_line(s1);
        lemma_spec_line_shape(s1);
        assert(l1 is Line);
        let n = l1->Line_1;
        assert(k == n);
        assert(s1.subrange(0, n) =~= s2.subrange(0, n));
        lemma_line_ext(s1, s2);
    }
}

/// A complete run of frames parses the same from any buffer agreeing on
/// its bytes.
pub proof fn lemma_elems_ext(s1: Seq<u8>, s2: Seq<u8>, m: nat)
    requires
        spec_elems(s1, m) is Vals,
        s2.len() >= spec_elems(s1, m)->Vals_1,
        s1.subrange(0, spec_elems(s1, m)->Vals_1) == s2.subrange(0, spec_elems(s1, m)->Vals_1),
    ensures
        spec_elems(s2, m) == spec_elems(s1, m),
    decreases s1.len(), 2nat,
{
    if m == 0 {
    } else {
        let k = spec_elems(s1, m)->Vals_1;
        lemma_elems_bounds(s1, m);
        assert forall|j: int| 0 <= j < k implies s2[j] == s1[j] by {
            assert(s1.subrange(0, k)[j] == s1[j]);
            assert(s2.subrange(0, k)[j] == s2[j]);
        }
        let p1 = spec_parse(s1);
        assert(p1 is Val);
        let k1 = p1->Val_1;
        lemma_parse_bounds(s1);
        lemma_elems_bounds(s1.skip(k1), (m - 1) as nat);
        let rest1 = spec_elems(s1.skip(k1), (m - 1) as nat);
        assert(rest1 is Vals);
        let k2 = rest1->Vals_1;
        assert(k == k1 + k2);
        assert(s1.subrange(0, k1) =~= s2.subrange(0, k1));
        lemma_parse_ext(s1, s2);
        assert(s1.skip(k1).subrange(0, k2) =~= s2.skip(k1).subrange(0, k2));
        lemma_elems_ext(s1.skip(k1), s2.skip(k1), (m - 1) as nat);
    }
}


/// A word run never exceeds the text it starts.
pub proof fn lemma_word_len_le(c: Seq<u8>)
    ensures
        word_len(c) <= c.len(),
    decreases c.len(),
{
    if c.len() > 0 && !is_sep(c[0]) {
        lemma_word_len_le(c.drop_first());
    }
}

/// Pins `word_len` to the index of the first separator (or the end).
pub proof fn lemma_word_len_at(c: Seq<u8>, w: int)
    requires
        0 <= w <= c.len(),
        forall|t: int| 0 <= t < w ==> !is_sep(c[t]),
        w == c.len() || is_sep(c[w]),
    ensures
        word_len(c) == w,
    decreases w,
{
    if w > 0 {
        lemma_word_len_at(c.drop_first(), w - 1);
    }
}

/// Mapping words to bulk strings distributes over cons.
pub proof fn lemma_words_to_resp_cons(w: Seq<u8>, ws: Seq<Seq<u8>>)
    ensures
        words_to_resp(seq![w] + ws) == seq![RespData::Bulk(Some(w))] + words_to_resp(ws),
{
    assert(words_to_resp(seq![w] + ws) =~= seq![RespData::Bulk(Some(w))] + words_to_resp(ws));
}

/// Splits an inline command line into its words, each a zero-copy window
/// into the line.
#[verifier::loop_isolation(false)]
pub fn split_inline_words(line: &bytes::Bytes) -> (ws: Vec<ResponseValue>)
    ensures
        rv_views(ws@) == words_to_resp(split_words(bytes_view(*line))),
{
    let ghost lv = bytes_view(*line);
    let n = bytes_len(line);
    let mut out: Vec<ResponseValue> = Vec::new();
    let mut i: usize = 0;
    proof {
        assert(lv.skip(0) =~= lv);
        lemma_rv_views(out@);
        assert(rv_views(out@) =~= Seq::<RespData>::empty());
        assert(Seq::<RespData>::empty() + words_to_resp(split_words(lv)) =~= words_to_resp(
            split_words(lv),
        ));
    }
    while i < n
        invariant
            0 <= i <= n,
            words_to_resp(split_words(lv)) == rv_views(out@) + words_to_resp(
                split_words(lv.skip(i as int)),
            ),
        decreases n - i,
    {
        let b = bytes_at(line, i);
        if b == 32 || b == 9 {
            proof {
                assert(lv.skip(i as int).drop_first() =~= lv.skip(i + 1));
                assert(split_words(lv.skip(i as int)) == split_words(lv.skip(i + 1)));
            }
            i += 1;
        } else {
            let ghost suffix = lv.skip(i as int);
            let mut j: usize = i + 1;
            while j < n && bytes_at(line, j) != 32 && bytes_at(line, j) != 9
                invariant
                    i < j <= n,
                    forall|t: int| i <= t < j ==> !is_sep(lv[t]),
                decreases n - j,
            {
                j += 1;
            }
            proof {
                assert forall|t: int| 0 <= t < j - i implies !is_sep(suffix[t]) by {
                    assert(suffix[t] == lv[i + t]);
                }
                if j < n {
                    assert(suffix[j - i] == lv[j as int]);
                }
                lemma_word_len_at(suffix, j - i);
                assert(word_len(suffix) == j - i);
                assert(suffix.take(j - i) =~= lv.subrange(i as int, j as int));
                assert(suffix.skip(j - i) =~= lv.skip(j as int));
                lemma_words_to_resp_cons(
                    suffix.take(j - i),
                    split_words(lv.skip(j as int)),
                );
            }
            let word = bytes_slice(line, i, j);
            let ghost pre_seq = out@;
            let ghost pre_views = rv_views(out@);
            let elem = ResponseValue::BulkString(Some(word));
            let ghost ev = rv_view(elem);
            out.push(elem);
            proof {
                assert(out@ =~= pre_seq.push(elem));
                lemma_rv_views_push(pre_seq, elem);
                assert(rv_views(out@) =~= pre_views + seq![
                    RespData::Bulk(Some(lv.subrange(i as int, j as int))),
                ]);
                assert(rv_views(out@) + words_to_resp(split_words(lv.skip(j as int))) =~= pre_views
                    + (seq![RespData::Bulk(Some(lv.subrange(i as int, j as int)))]
                    + words_to_resp(split_words(lv.skip(j as int)))));
            }
            i = j;
        }
    }
    proof {
        assert(lv.skip(n as int) =~= Seq::<u8>::empty());
        assert(split_words(Seq::<u8>::empty()) =~= Seq::<Seq<u8>>::empty());
        assert(words_to_resp(Seq::<Seq<u8>>::empty()) =~= Seq::<RespData>::empty());
        assert(rv_views(out@) + Seq::<RespData>::empty() =~= rv_views(out@));
    }
    out
}

/// The second pass of the parser: builds a value from a detached frame
/// whose bytes are already known to form one complete frame.
pub struct Parser {
    buffer: bytes::Bytes,
    cursor: usize,
}

impl Parser {
    /// All the bytes of the frame being read.
    pub closed spec fn full(&self) -> Seq<u8> {
        bytes_view(self.buffer)
    }

    /// How many bytes have been consumed.
    pub closed spec fn pos(&self) -> int {
        self.cursor as int
    }

    /// The bytes not yet consumed.
    pub open spec fn rest(&self) -> Seq<u8> {
        self.full().skip(self.pos())
    }

    pub open spec fn wf(&self) -> bool {
        0 <= self.pos() <= self.full().len()
    }

    pub fn new(buffer: bytes::Bytes) -> (p: Parser)
        ensures
            p.wf(),
            p.full() == bytes_view(buffer),
            p.pos() == 0,
    {
        Parser { buffer, cursor: 0 }
    }

    /// The next unconsumed byte.
    pub fn peek(&self) -> (r: u8)
        requires
            self.wf(),
            self.pos() < self.full().len(),
        ensures
            r == self.rest()[0],
    {
        bytes_at(&self.buffer, self.cursor)
    }

    /// Consumes one CRLF-terminated line, returning its content as a
    /// zero-copy window into the frame.
    #[verifier::loop_isolation(false)]
    pub fn read_line(&mut self) -> (r: bytes::Bytes)
        requires
            old(self).wf(),
            spec_line(old(self).rest()) is Line,
        ensures
            final(self).wf(),
            final(self).full() == old(self).full(),
            bytes_view(r) == spec_line(old(self).rest())->Line_0,
            final(self).pos() == old(self).pos() + spec_line(old(self).rest())->Line_1,
    {
        let ghost t = self.rest();
        proof {
            lemma_spec_line_shape(t);
        }
        let n = bytes_len(&self.buffer);
        let mut j: usize = self.cursor;
        while j < n && bytes_at(&self.buffer, j) != CR
            invariant
                old(self).pos() <= j <= n,
                forall|q: int| old(self).pos() <= q < j ==> self.full()[q] != CR,
            decreases n - j,
        {
            j += 1;
        }
        proof {
            let c = spec_line(t)->Line_0;
            assert(t[c.len() as int] == CR);
            assert(self.full()[old(self).pos() + c.len()] == CR);
            assert(j - old(self).pos() == c.len()) by {
                if j < old(self).pos() + c.len() {
                    assert(j < n);
                    assert(self.full()[j as int] == CR);
                    assert(c[j - old(self).pos()] == t[j - old(self).pos()]);
                    assert(t[j - old(self).pos()] == self.full()[j as int]);
                    assert(false);
                }
                if j > old(self).pos() + c.len() {
                    assert(self.full()[old(self).pos() + c.len()] != CR);
                    assert(false);
                }
            }
            assert(t.subrange(0, c.len() as int) =~= self.full().subrange(
                old(self).pos(),
                j as int,
            ));
        }
        let content = bytes_slice(&self.buffer, self.cursor, j);
        self.cursor = j + 2;
        content
    }

    /// Builds the frame's value, consuming exactly its bytes.
    #[verifier::loop_isolation(false)]
    pub fn parse(&mut self) -> (r: ResponseValue)
        requires
            old(self).wf(),
            spec_parse(old(self).rest()) is Val,
        ensures
            final(self).wf(),
            final(self).full() == old(self).full(),
            rv_view(r) == spec_parse(old(self).rest())->Val_0,
            final(self).pos() == old(self).pos() + spec_parse(old(self).rest())->Val_1,
        decreases self.full().len() - self.pos(),
    {
        let ghost s = self.rest();
        proof {
            lemma_parse_bounds(s);
        }
        let b = self.peek();
        if b == MARK_SIMPLE {
            self.parse_simple_string()
        } else if b == MARK_ERROR {
            self.parse_simple_error()
        } else if b == MARK_INT {
            self.parse_integer()
        } else if b == MARK_BULK {
            self.parse_bulk_string()
        } else if b == MARK_ARRAY {
            self.parse_array()
        } else {
            proof {
                assert(is_alpha(s[0]));
            }
            let line = self.read_line();
            let words = split_inline_words(&line);
            let r = ResponseValue::Array(Some(words));
            proof {
                assert(rv_view(r) == spec_parse(s)->Val_0);
            }
            r
        }
    }

    /// Reads a `+` frame.
    pub fn parse_simple_string(&mut self) -> (r: ResponseValue)
        requires
            old(self).wf(),
            spec_parse(old(self).rest()) is Val,
            old(self).rest()[0] == MARK_SIMPLE,
        ensures
            final(self).wf(),
            final(self).full() == old(self).full(),
            rv_view(r) == spec_parse(old(self).rest())->Val_0,
            final(self).pos() == old(self).pos() + spec_parse(old(self).rest())->Val_1,
    {
        let ghost s = self.rest();
        let total = bytes_len(&self.buffer);
        self.cursor = self.cursor + 1;
        proof {
            assert(self.rest() =~= s.drop_first());
        }
        let line = self.read_line();
        ResponseValue::SimpleString(line)
    }

    /// Reads a `-` frame.
    pub fn parse_simple_error(&mut self) -> (r: ResponseValue)
        requires
            old(self).wf(),
            spec_parse(old(self).rest()) is Val,
            old(self).rest()[0] == MARK_ERROR,
        ensures
            final(self).wf(),
            final(self).full() == old(self).full(),
            rv_view(r) == spec_parse(old(self).rest())->Val_0,
            final(self).pos() == old(self).pos() + spec_parse(old(self).rest())->Val_1,
    {
        let ghost s = self.rest();
        let total = bytes_len(&self.buffer);
        self.cursor = self.cursor + 1;
        proof {
            assert(self.rest() =~= s.drop_first());
        }
        let line = self.read_line();
        ResponseValue::Error(line)
    }

    /// Reads a `:` frame.
    pub fn parse_integer(&mut self) -> (r: ResponseValue)
        requires
            old(self).wf(),
            spec_parse(old(self).rest()) is Val,
            old(self).rest()[0] == MARK_INT,
        ensures
            final(self).wf(),
            final(self).full() == old(self).full(),
            rv_view(r) == spec_parse(old(self).rest())->Val_0,
            final(self).pos() == old(self).pos() + spec_parse(old(self).rest())->Val_1,
    {
        let ghost s = self.rest();
        let total = bytes_len(&self.buffer);
        self.cursor = self.cursor + 1;
        proof {
            assert(self.rest() =~= s.drop_first());
        }
        let line = self.read_line();
        let text = bytes_to_vec(&line);
        match parse_i64_slice(text.as_slice()) {
            Some(v) => ResponseValue::Integer(v),
            None => {
                proof {
                    assert(false);
                }
                ResponseValue::Integer(0)
            },
        }
    }

    /// Reads a `$` frame; the payload is a zero-copy window into the frame.
    pub fn parse_bulk_string(&mut self) -> (r: ResponseValue)
        requires
            old(self).wf(),
            spec_parse(old(self).rest()) is Val,
            old(self).rest()[0] == MARK_BULK,
        ensures
            final(self).wf(),
            final(self).full() == old(self).full(),
            rv_view(r) == spec_parse(old(self).rest())->Val_0,
            final(self).pos() == old(self).pos() + spec_parse(old(self).rest())->Val_1,
    {
        let ghost s = self.rest();
        let total = bytes_len(&self.buffer);
        proof {
            lemma_spec_line_shape(s.drop_first());
        }
        self.cursor = self.cursor + 1;
        proof {
            assert(self.rest() =~= s.drop_first());
        }
        let line = self.read_line();
        let text = bytes_to_vec(&line);
        match parse_i64_slice(text.as_slice()) {
            Some(l) => {
                if l < 0 {
                    ResponseValue::BulkString(None)
                } else {
                    let start = self.cursor;
                    let ghost n = spec_line(s.drop_first())->Line_1;
                    proof {
                        assert(s.len() >= 1 + n + l + 2);
                        assert(start + l + 2 <= total);
                        assert(s.subrange(1 + n, 1 + n + l) =~= self.full().subrange(
                            start as int,
                            start + l,
                        ));
                    }
                    let payload = bytes_slice(&self.buffer, start, start + (l as usize));
                    self.cursor = start + (l as usize) + 2;
                    ResponseValue::BulkString(Some(payload))
                }
            },
            None => {
                proof {
                    assert(false);
                }
                ResponseValue::BulkString(None)
            },
        }
    }

    /// Reads a `*` frame, building each element in turn.
    #[verifier::loop_isolation(false)]
    pub fn parse_array(&mut self) -> (r: ResponseValue)
        requires
            old(self).wf(),
            spec_parse(old(self).rest()) is Val,
            old(self).rest()[0] == MARK_ARRAY,
        ensures
            final(self).wf(),
            final(self).full() == old(self).full(),
            rv_view(r) == spec_parse(old(self).rest())->Val_0,
            final(self).pos() == old(self).pos() + spec_parse(old(self).rest())->Val_1,
        decreases self.full().len() - self.pos(), 0nat,
    {
        let ghost s = self.rest();
        let total = bytes_len(&self.buffer);
        proof {
            lemma_spec_line_shape(s.drop_first());
        }
        self.cursor = self.cursor + 1;
        proof {
            assert(self.rest() =~= s.drop_first());
        }
        let line = self.read_line();
        let text = bytes_to_vec(&line);
        match parse_i64_slice(text.as_slice()) {
            Some(m) => {
                if m < 0 {
                    ResponseValue::Array(None)
                } else {
                    let ghost n = spec_line(s.drop_first())->Line_1;
                    let ghost elems_start = self.rest();
                    proof {
                        assert(elems_start =~= s.skip(1 + n));
                        lemma_elems_bounds(elems_start, m as nat);
                        lemma_elems_compose_zero(spec_elems(elems_start, m as nat));
                    }
                    let base = self.cursor;
                    let mut out: Vec<ResponseValue> = Vec::new();
                    let mut i: i64 = 0;
                    proof {
                        lemma_rv_views(out@);
                        assert(rv_views(out@) =~= Seq::<RespData>::empty());
                    }
                    while i < m
                        invariant
                            0 <= i <= m,
                            self.wf(),
                            self.full() == old(self).full(),
                            base as int <= self.pos(),
                            spec_elems(elems_start, m as nat) == elems_compose(
                                rv_views(out@),
                                self.pos() - base,
                                spec_elems(self.rest(), (m - i) as nat),
                            ),
                        decreases m - i,
                    {
                        let ghost cur_s = self.rest();
                        let ghost pre_views = rv_views(out@);
                        proof {
                            assert(spec_elems(cur_s, (m - i) as nat) is Vals ==> spec_parse(
                                cur_s,
                            ) is Val);
                            if !(spec_parse(cur_s) is Val) {
                                assert(spec_elems(elems_start, m as nat) is Vals);
                                assert(false);
                            }
                        }
                        let v = self.parse();
                        proof {
                            let vk = spec_parse(cur_s)->Val_1;
                            lemma_elems_step(cur_s, (m - i) as nat);
                            assert(cur_s.skip(vk) =~= self.rest());
                            lemma_elems_compose_assoc(
                                pre_views,
                                0,
                                seq![spec_parse(cur_s)->Val_0],
                                vk,
                                spec_elems(self.rest(), (m - i - 1) as nat),
                            );
                        }
                        let ghost pre_seq = out@;
                        out.push(v);
                        proof {
                            assert(out@ =~= pre_seq.push(v));
                            lemma_rv_views_push(pre_seq, v);
                            assert(rv_views(out@) =~= pre_views + seq![rv_view(v)]);
                        }
                        i += 1;
                    }
                    proof {
                        assert(spec_elems(self.rest(), 0nat) == ElemsOut::Vals(
                            Seq::<RespData>::empty(),
                            0,
                        ));
                        assert(rv_views(out@) + Seq::<RespData>::empty() =~= rv_views(out@));
                        assert(spec_elems(elems_start, m as nat) == ElemsOut::Vals(
                            rv_views(out@),
                            self.pos() - base,
                        ));
                    }
                    ResponseValue::Array(Some(out))
                }
            },
            None => {
                proof {
                    assert(false);
                }
                ResponseValue::Array(None)
            },
        }
    }
}

/// Parses one frame from the head of the buffer.
///
/// On success, exactly the frame's bytes are removed from the buffer and
/// payloads in the returned value are zero-copy windows into them. On any
/// failure the buffer is unchanged.
pub fn parse(buf: &mut bytes::BytesMut) -> (r: Result<ResponseValue, BufParseError>)
    ensures
        match r {
            Ok(v) => {
                &&& spec_parse(bm_view(*old(buf))) is Val
                &&& rv_view(v) == spec_parse(bm_view(*old(buf)))->Val_0
                &&& bm_view(*final(buf)) == bm_view(*old(buf)).skip(
                    spec_parse(bm_view(*old(buf)))->Val_1,
                )
            },
            Err(e) => {
                &&& spec_parse(bm_view(*old(buf))) == ParseOut::Fail(e)
                &&& bm_view(*final(buf)) == bm_view(*old(buf))
            },
        },
{
    let ghost full = bm_view(*buf);
    let k = match frame_len(buf) {
        Ok(k) => k,
        Err(e) => {
            return Err(e);
        },
    };
    let frame_bm = bm_split_to(buf, k);
    let frame = bm_freeze(frame_bm);
    proof {
        assert(bytes_view(frame) == full.take(k as int));
        assert(full.take(k as int).subrange(0, k as int) =~= full.subrange(0, k as int));
        lemma_parse_ext(full, full.take(k as int));
    }
    let mut p = Parser::new(frame);
    proof {
        assert(p.rest() =~= full.take(k as int));
    }
    let v = p.parse();
    Ok(v)
}


/// The decimal text of an integer contains no CR and no LF.
pub proof fn lemma_dec_int_no_crlf(i: int)
    ensures
        forall|j: int| 0 <= j < dec_int(i).len() ==> dec_int(i)[j] != CR && dec_int(i)[j] != LF,
{
    if i < 0 {
        lemma_dec_digits_shape((-i) as nat);
        assert forall|j: int| 0 <= j < dec_int(i).len() implies dec_int(i)[j] != CR && dec_int(
            i,
        )[j] != LF by {
            if j > 0 {
                assert(dec_int(i)[j] == dec_digits((-i) as nat)[j - 1]);
                assert(is_digit(dec_digits((-i) as nat)[j - 1]));
            }
        }
    } else {
        lemma_dec_digits_shape(i as nat);
        assert forall|j: int| 0 <= j < dec_int(i).len() implies dec_int(i)[j] != CR && dec_int(
            i,
        )[j] != LF by {
            assert(is_digit(dec_digits(i as nat)[j]));
        }
    }
}

/// Round trip: a well-formed value followed by anything parses back to
/// itself, consuming exactly its wire length.
pub proof fn lemma_parse_of_encode(v: RespData, rest: Seq<u8>)
    requires
        resp_wf(v),
    ensures
        spec_parse(spec_encode(v) + rest) == ParseOut::Val(v, spec_encode(v).len() as int),
    decreases v,
{
    let enc = spec_encode(v);
    let s = enc + rest;
    match v {
        RespData::Simple(sv) => {
            assert(s[0] == MARK_SIMPLE);
            assert(s.drop_first() =~= sv + crlf() + rest);
            lemma_line_of_content(sv, rest);
            assert(spec_parse(s) =~= ParseOut::Val(v, enc.len() as int));
        },
        RespData::Error(sv) => {
            assert(s[0] == MARK_ERROR);
            assert(s.drop_first() =~= sv + crlf() + rest);
            lemma_line_of_content(sv, rest);
            assert(spec_parse(s) =~= ParseOut::Val(v, enc.len() as int));
        },
        RespData::Integer(i) => {
            assert(s[0] == MARK_INT);
            let d = dec_int(i as int);
            lemma_dec_int_no_crlf(i as int);
            assert(s.drop_first() =~= d + crlf() + rest);
            lemma_line_of_content(d, rest);
            lemma_int_literal_of_dec(i as int);
            assert(spec_parse(s) =~= ParseOut::Val(v, enc.len() as int));
        },
        RespData::Bulk(None) => {
            assert(s[0] == MARK_BULK);
            let c = seq![MINUS_SIGN, (ZERO_DIGIT + 1) as u8];
            assert(dec_digits(1) =~= seq![(ZERO_DIGIT + 1) as u8]);
            assert(c =~= dec_int(-1));
            lemma_dec_int_no_crlf(-1);
            assert(s.drop_first() =~= c + crlf() + rest);
            lemma_line_of_content(c, rest);
            lemma_int_literal_of_dec(-1);
            assert(enc.len() == 5);
            assert(spec_parse(s) =~= ParseOut::Val(v, enc.len() as int));
        },
        RespData::Bulk(Some(p)) => {
            assert(s[0] == MARK_BULK);
            let d = dec_digits(p.len());
            lemma_dec_digits_shape(p.len());
            assert(forall|j: int| 0 <= j < d.len() ==> is_digit(#[trigger] d[j]));
            assert forall|j: int| 0 <= j < d.len() implies d[j] != CR by {
                assert(is_digit(d[j]));
            }
            assert(s.drop_first() =~= d + crlf() + (p + crlf() + rest));
            lemma_line_of_content(d, p + crlf() + rest);
            lemma_int_literal_of_dec(p.len() as int);
            assert(dec_int(p.len() as int) =~= d);
            let n = d.len() + 2int;
            let l = p.len() as int;
            assert(s.len() >= 1 + n + l + 2);
            assert(s[1 + n + l] == CR && s[1 + n + l + 1int] == LF) by {
                assert(s =~= seq![MARK_BULK] + d + crlf() + p + crlf() + rest);
                assert(s[1 + d.len() + 2 + p.len() as int] == crlf()[0]);
                assert(s[1 + d.len() + 2 + p.len() + 1int] == crlf()[1]);
            }
            assert(s.subrange(1 + n, 1 + n + l) =~= p);
            assert(spec_parse(s) =~= ParseOut::Val(v, enc.len() as int));
        },
        RespData::Array(None) => {
            assert(s[0] == MARK_ARRAY);
            let c = seq![MINUS_SIGN, (ZERO_DIGIT + 1) as u8];
            assert(dec_digits(1) =~= seq![(ZERO_DIGIT + 1) as u8]);
            assert(c =~= dec_int(-1));
            lemma_dec_int_no_crlf(-1);
            assert(s.drop_first() =~= c + crlf() + rest);
            lemma_line_of_content(c, rest);
            lemma_int_literal_of_dec(-1);
            assert(enc.len() == 5);
            assert(spec_parse(s) =~= ParseOut::Val(v, enc.len() as int));
        },
        RespData::Array(Some(items)) => {
            assert(s[0] == MARK_ARRAY);
            let d = dec_digits(items.len());
            lemma_dec_digits_shape(items.len());
            assert forall|j: int| 0 <= j < d.len() implies d[j] != CR by {
                assert(is_digit(d[j]));
            }
            let el = spec_encode_list(items);
            assert(s.drop_first() =~= d + crlf() + (el + rest));
            lemma_line_of_content(d, el + rest);
            lemma_int_literal_of_dec(items.len() as int);
            assert(dec_int(items.len() as int) =~= d);
            let n = d.len() + 2int;
            assert(s.skip(1 + n) =~= el + rest);
            lemma_parse_of_encode_list(items, rest);
            assert(spec_elems(el + rest, items.len()) == ElemsOut::Vals(items, el.len() as int));
            assert(spec_parse(s) =~= ParseOut::Val(v, enc.len() as int));
        },
    }
}

/// Round trip for a run of values, elementwise.
pub proof fn lemma_parse_of_encode_list(items: Seq<RespData>, rest: Seq<u8>)
    requires
        forall|j: int| 0 <= j < items.len() ==> resp_wf(#[trigger] items[j]),
    ensures
        spec_elems(spec_encode_list(items) + rest, items.len()) == ElemsOut::Vals(
            items,
            spec_encode_list(items).len() as int,
        ),
    decreases items,
{
    let el = spec_encode_list(items);
    let s = el + rest;
    if items.len() == 0 {
        assert(spec_elems(s, 0) == ElemsOut::Vals(Seq::<RespData>::empty(), 0));
        assert(spec_elems(s, 0) =~= ElemsOut::Vals(items, el.len() as int));
    } else {
        let h = items[0];
        let t = items.drop_first();
        let e0 = spec_encode(h);
        assert(el =~= e0 + spec_encode_list(t));
        assert(s =~= e0 + (spec_encode_list(t) + rest));
        lemma_parse_of_encode(h, spec_encode_list(t) + rest);
        assert(spec_parse(s) == ParseOut::Val(h, e0.len() as int));
        assert(e0.len() >= 1) by {
            lemma_parse_bounds(s);
        }
        assert(s.skip(e0.len() as int) =~= spec_encode_list(t) + rest);
        lemma_parse_of_encode_list(t, rest);
        assert(spec_elems(s, items.len()) =~= ElemsOut::Vals(
            seq![h] + t,
            e0.len() + spec_encode_list(t).len() as int,
        ));
        assert(seq![h] + t =~= items);
        assert(spec_elems(s, items.len()) =~= ElemsOut::Vals(items, el.len() as int));
    }
}

/// Any strict prefix of a well-formed value's wire form is incomplete.
pub proof fn lemma_encode_prefix_incomplete(v: RespData, p: Seq<u8>)
    requires
        resp_wf(v),
        p.len() < spec_encode(v).len(),
        p == spec_encode(v).subrange(0, p.len() as int),
    ensures
        spec_parse(p) == ParseOut::Fail(BufParseError::Incomplete),
    decreases v,
{
    let enc = spec_encode(v);
    assert forall|j: int| 0 <= j < p.len() implies p[j] == enc[j] by {
        assert(enc.subrange(0, p.len() as int)[j] == enc[j]);
    }
    if p.len() == 0 {
    } else {
        match v {
            RespData::Simple(sv) => {
                assert(p[0] == MARK_SIMPLE);
                assert(enc.drop_first() =~= sv + crlf());
                assert(p.drop_first() =~= (sv + crlf()).subrange(0, p.len() - 1));
                lemma_line_prefix(sv, p.drop_first());
            },
            RespData::Error(sv) => {
                assert(p[0] == MARK_ERROR);
                assert(enc.drop_first() =~= sv + crlf());
                assert(p.drop_first() =~= (sv + crlf()).subrange(0, p.len() - 1));
                lemma_line_prefix(sv, p.drop_first());
            },
            RespData::Integer(i) => {
                assert(p[0] == MARK_INT);
                let d = dec_int(i as int);
                lemma_dec_int_no_crlf(i as int);
                assert(enc.drop_first() =~= d + crlf());
                assert(p.drop_first() =~= (d + crlf()).subrange(0, p.len() - 1));
                lemma_line_prefix(d, p.drop_first());
            },
            RespData::Bulk(None) => {
                assert(p[0] == MARK_BULK);
                let c = seq![MINUS_SIGN, (ZERO_DIGIT + 1) as u8];
                lemma_dec_int_no_crlf(-1);
                assert(dec_digits(1) =~= seq![(ZERO_DIGIT + 1) as u8]);
                assert(c =~= dec_int(-1));
                assert(enc.drop_first() =~= c + crlf());
                assert(p.drop_first() =~= (c + crlf()).subrange(0, p.len() - 1));
                lemma_line_prefix(c, p.drop_first());
            },
            RespData::Array(None) => {
                assert(p[0] == MARK_ARRAY);
                let c = seq![MINUS_SIGN, (ZERO_DIGIT + 1) as u8];
                lemma_dec_int_no_crlf(-1);
                assert(dec_digits(1) =~= seq![(ZERO_DIGIT + 1) as u8]);
                assert(c =~= dec_int(-1));
                assert(enc.drop_first() =~= c + crlf());
                assert(p.drop_first() =~= (c + crlf()).subrange(0, p.len() - 1));
                lemma_line_prefix(c, p.drop_first());
            },
            RespData::Bulk(Some(pl)) => {
                assert(p[0] == MARK_BULK);
                let d = dec_digits(pl.len());
                lemma_dec_digits_shape(pl.len());
                assert forall|j: int| 0 <= j < d.len() implies d[j] != CR by {
                    assert(is_digit(d[j]));
                }
                let n = d.len() + 2;
                if p.len() < 1 + n {
                    assert(enc.drop_first() =~= d + crlf() + (pl + crlf()));
                    assert forall|j: int| 0 <= j < p.len() - 1 implies p.drop_first()[j] == (d
                        + crlf())[j] by {
                        assert(p.drop_first()[j] == enc[j + 1]);
                        assert(enc.drop_first()[j] == enc[j + 1]);
                    }
                    assert(p.drop_first() =~= (d + crlf()).subrange(0, p.len() - 1));
                    lemma_line_prefix(d, p.drop_first());
                } else {
                    lemma_line_of_content(d, pl + crlf());
                    assert(enc.drop_first() =~= d + crlf() + (pl + crlf()));
                    assert(spec_line(enc.drop_first()) == LineOut::Line(d, n as int));
                    assert(enc.drop_first().subrange(0, n as int) =~= p.drop_first().subrange(
                        0,
                        n as int,
                    ));
                    lemma_line_ext(enc.drop_first(), p.drop_first());
                    lemma_int_literal_of_dec(pl.len() as int);
                    assert(dec_int(pl.len() as int) =~= d);
                    assert(p.len() < 1 + n + pl.len() + 2);
                    assert(spec_parse(p) =~= ParseOut::Fail(BufParseError::Incomplete));
                }
            },
            RespData::Array(Some(items)) => {
                assert(p[0] == MARK_ARRAY);
                let d = dec_digits(items.len());
                lemma_dec_digits_shape(items.len());
                assert forall|j: int| 0 <= j < d.len() implies d[j] != CR by {
                    assert(is_digit(d[j]));
                }
                let n = d.len() + 2;
                let el = spec_encode_list(items);
                if p.len() < 1 + n {
                    assert(enc.drop_first() =~= d + crlf() + el);
                    assert forall|j: int| 0 <= j < p.len() - 1 implies p.drop_first()[j] == (d
                        + crlf())[j] by {
                        assert(p.drop_first()[j] == enc[j + 1]);
                        assert(enc.drop_first()[j] == enc[j + 1]);
                    }
                    assert(p.drop_first() =~= (d + crlf()).subrange(0, p.len() - 1));
                    lemma_line_prefix(d, p.drop_first());
                } else {
                    lemma_line_of_content(d, el);
                    assert(enc.drop_first() =~= d + crlf() + el);
                    assert(spec_line(enc.drop_first()) == LineOut::Line(d, n as int));
                    assert(enc.drop_first().subrange(0, n as int) =~= p.drop_first().subrange(
                        0,
                        n as int,
                    ));
                    lemma_line_ext(enc.drop_first(), p.drop_first());
                    lemma_int_literal_of_dec(items.len() as int);
                    assert(dec_int(items.len() as int) =~= d);
                    assert(p.skip(1 + n as int) =~= el.subrange(0, p.len() - 1 - n));
                    lemma_encode_list_prefix_incomplete(items, p.skip(1 + n as int));
                    assert(spec_parse(p) =~= ParseOut::Fail(BufParseError::Incomplete));
                }
            },
        }
    }
}

/// Any strict prefix of an encoded run of values is incomplete.
pub proof fn lemma_encode_list_prefix_incomplete(items: Seq<RespData>, q: Seq<u8>)
    requires
        forall|j: int| 0 <= j < items.len() ==> resp_wf(#[trigger] items[j]),
        q.len() < spec_encode_list(items).len(),
        q == spec_encode_list(items).subrange(0, q.len() as int),
    ensures
        spec_elems(q, items.len()) == ElemsOut::Fail(BufParseError::Incomplete),
    decreases items,
{
    let el = spec_encode_list(items);
    assert forall|j: int| 0 <= j < q.len() implies q[j] == el[j] by {
        assert(el.subrange(0, q.len() as int)[j] == el[j]);
    }
    assert(items.len() > 0);
    let h = items[0];
    let t = items.drop_first();
    let e0 = spec_encode(h);
    assert(el =~= e0 + spec_encode_list(t));
    if q.len() < e0.len() {
        assert forall|j: int| 0 <= j < q.len() implies q[j] == e0[j] by {
            assert(el[j] == e0[j]);
        }
        assert(q =~= e0.subrange(0, q.len() as int));
        lemma_encode_prefix_incomplete(h, q);
    } else {
        lemma_parse_of_encode(h, Seq::<u8>::empty());
        assert(e0 + Seq::<u8>::empty() =~= e0);
        assert(spec_parse(e0) == ParseOut::Val(h, e0.len() as int));
        assert(e0.subrange(0, e0.len() as int) =~= q.subrange(0, e0.len() as int));
        lemma_parse_ext(e0, q);
        assert(spec_parse(q) == ParseOut::Val(h, e0.len() as int));
        lemma_parse_bounds(q);
        let q2 = q.skip(e0.len() as int);
        assert(q2.len() < spec_encode_list(t).len());
        assert forall|j: int| 0 <= j < q2.len() implies q2[j] == spec_encode_list(t)[j] by {
            assert(q2[j] == q[e0.len() + j]);
            assert(el[e0.len() + j] == spec_encode_list(t)[j]);
        }
        assert(q2 =~= spec_encode_list(t).subrange(0, q2.len() as int));
        lemma_encode_list_prefix_incomplete(t, q2);
        assert(spec_elems(q, items.len()) =~= ElemsOut::Fail(BufParseError::Incomplete));
    }
}

/// A bulk payload of arbitrary bytes, CR, LF and zero included, rides the
/// wire unchanged.
pub proof fn lemma_bulk_round_trip(p: Seq<u8>, rest: Seq<u8>)
    requires
        p.len() <= i64::MAX,
    ensures
        spec_parse(spec_encode(RespData::Bulk(Some(p))) + rest) == ParseOut::Val(
            RespData::Bulk(Some(p)),
            spec_encode(RespData::Bulk(Some(p))).len() as int,
        ),
{
    lemma_parse_of_encode(RespData::Bulk(Some(p)), rest);
}

/// Arrays nest to any finite depth and ride the wire unchanged.
pub proof fn lemma_array_round_trip(items: Seq<RespData>, rest: Seq<u8>)
    requires
        resp_wf(RespData::Array(Some(items))),
    ensures
        spec_parse(spec_encode(RespData::Array(Some(items))) + rest) == ParseOut::Val(
            RespData::Array(Some(items)),
            spec_encode(RespData::Array(Some(items))).len() as int,
        ),
{
    lemma_parse_of_encode(RespData::Array(Some(items)), rest);
}

/// A first byte that selects no RESP2 type and starts no inline command is
/// rejected as such.
pub proof fn lemma_invalid_first_byte(s: Seq<u8>)
    requires
        s.len() > 0,
        s[0] != MARK_SIMPLE && s[0] != MARK_ERROR && s[0] != MARK_INT && s[0] != MARK_BULK && s[0]
            != MARK_ARRAY,
        !is_alpha(s[0]),
    ensures
        spec_parse(s) == ParseOut::Fail(BufParseError::InvalidFirstByte(s[0])),
{
}

} // verus!
