//! Per-connection reply plumbing: the reorder buffer that restores
//! request order across shards, and the reply built for a fatal parse
//! error.
use vstd::prelude::*;
use crate::message::{RespData, ResponseValue, ResponseMessage, rv_view};
use crate::num::dec_digits;
use crate::parser::BufParseError;
use crate::byteops::{bytes_view, bytes_from_vec};
use crate::wire_text::{first_byte_prefix_text, first_byte_prefix_bytes, protocol_text,
    protocol_bytes};

verus! {

/// Restores per-connection reply order: replies may arrive from shards in
/// any order, but leave strictly by sequence number, starting at one.
///
/// The ghost `inserted` map records every reply ever handed in, keyed by
/// its sequence; the ghost `emitted` run records what has left, in order.
/// Well-formedness pins `emitted` to exactly `inserted[1], inserted[2],
/// ...`: no reply is reordered, dropped, or invented.
pub struct ReorderBuffer {
    next: u64,
    pending: Vec<ResponseMessage>,
    inserted: Ghost<Map<u64, RespData>>,
    emitted: Ghost<Seq<RespData>>,
}

impl ReorderBuffer {
    /// The sequence number the connection owes next.
    pub closed spec fn next_seq(&self) -> u64 {
        self.next
    }

    /// Every reply handed in so far, by sequence number.
    pub closed spec fn inserted_view(&self) -> Map<u64, RespData> {
        self.inserted@
    }

    /// The replies released so far, in release order.
    pub closed spec fn emitted_view(&self) -> Seq<RespData> {
        self.emitted@
    }

    pub closed spec fn pending_view(&self) -> Seq<ResponseMessage> {
        self.pending@
    }

    /// Whether a reply with this sequence is waiting in the buffer.
    pub open spec fn pending_has(&self, s: u64) -> bool {
        exists|i: int|
            0 <= i < self.pending_view().len() && #[trigger] self.pending_view()[i].seq == s
    }

    /// Whether the reply owed next is waiting in the buffer.
    pub open spec fn has_ready(&self) -> bool {
        self.pending_has(self.next_seq())
    }

    pub open spec fn wf(&self) -> bool {
        &&& 1 <= self.next_seq()
        &&& self.emitted_view().len() == self.next_seq() - 1
        &&& forall|t: int|
            0 <= t < self.emitted_view().len() ==> #[trigger] self.inserted_view().contains_key(
                (t + 1) as u64,
            )
        &&& forall|t: int|
            0 <= t < self.emitted_view().len() ==> #[trigger] self.emitted_view()[t]
                == self.inserted_view()[(t + 1) as u64]
        &&& forall|i: int|
            0 <= i < self.pending_view().len() ==> (#[trigger] self.pending_view()[i].seq
                >= self.next_seq() && self.pending_view()[i].seq < u64::MAX
                && self.inserted_view().contains_key(self.pending_view()[i].seq)
                && rv_view(self.pending_view()[i].response_value) == self.inserted_view().index(
                self.pending_view()[i].seq,
            ))
        &&& forall|i: int, j: int|
            0 <= i < j < self.pending_view().len() ==> #[trigger] self.pending_view()[i].seq
                != #[trigger] self.pending_view()[j].seq
    }

    pub fn new() -> (r: Self)
        ensures
            r.wf(),
            r.next_seq() == 1,
            r.inserted_view() =~= Map::<u64, RespData>::empty(),
            r.emitted_view() =~= Seq::<RespData>::empty(),
    {
        ReorderBuffer {
            next: 1,
            pending: Vec::new(),
            inserted: Ghost(Map::empty()),
            emitted: Ghost(Seq::empty()),
        }
    }

    /// The sequence number the connection owes next.
    pub fn next_value(&self) -> (r: u64)
        ensures
            r == self.next_seq(),
    {
        self.next
    }

    /// Whether a reply with this sequence is already waiting.
    #[verifier::loop_isolation(false)]
    pub fn holds(&self, s: u64) -> (r: bool)
        ensures
            r == self.pending_has(s),
    {
        let mut i: usize = 0;
        while i < self.pending.len()
            invariant
                0 <= i <= self.pending_view().len(),
                forall|j: int| 0 <= j < i ==> #[trigger] self.pending_view()[j].seq != s,
            decreases self.pending_view().len() - i,
        {
            if self.pending[i].seq == s {
                return true;
            }
            i += 1;
        }
        false
    }

    /// Hands in one reply; its sequence must be owed and not yet waiting.
    pub fn insert(&mut self, msg: ResponseMessage)
        requires
            old(self).wf(),
            msg.seq >= old(self).next_seq(),
            msg.seq < u64::MAX,
            !old(self).pending_has(msg.seq),
        ensures
            final(self).wf(),
            final(self).next_seq() == old(self).next_seq(),
            final(self).emitted_view() == old(self).emitted_view(),
            final(self).pending_view() == old(self).pending_view().push(msg),
            final(self).inserted_view() =~= old(self).inserted_view().insert(
                msg.seq,
                rv_view(msg.response_value),
            ),
    {
        let ghost pre_pending = self.pending@;
        let ghost pre_inserted = self.inserted@;
        proof {
            self.inserted@ = self.inserted@.insert(msg.seq, rv_view(msg.response_value));
        }
        self.pending.push(msg);
        proof {
            assert(self.pending@ =~= pre_pending.push(msg));
            assert forall|i: int|
                0 <= i < self.pending_view().len() implies (#[trigger] self.pending_view()[i].seq
                >= self.next_seq() && self.pending_view()[i].seq < u64::MAX
                && self.inserted_view().contains_key(self.pending_view()[i].seq) && rv_view(
                self.pending_view()[i].response_value,
            ) == self.inserted_view().index(self.pending_view()[i].seq)) by {
                if i < pre_pending.len() {
                    assert(self.pending_view()[i] == pre_pending[i]);
                    assert(pre_pending[i].seq != msg.seq);
                    assert(pre_inserted.contains_key(pre_pending[i].seq));
                } else {
                    assert(self.pending_view()[i] == msg);
                }
            }
            assert forall|i: int, j: int|
                0 <= i < j < self.pending_view().len() implies #[trigger] self.pending_view()[i].seq
                != #[trigger] self.pending_view()[j].seq by {
                if j == pre_pending.len() {
                    assert(self.pending_view()[i] == pre_pending[i]);
                    assert(pre_pending[i].seq != msg.seq);
                } else {
                    assert(self.pending_view()[i] == pre_pending[i]);
                    assert(self.pending_view()[j] == pre_pending[j]);
                }
            }
            assert forall|t: int|
                0 <= t < self.emitted_view().len() implies self.inserted_view().contains_key(
                (t + 1) as u64,
            ) && #[trigger] self.emitted_view()[t] == self.inserted_view().index(
                (t + 1) as u64,
            ) by {
                assert(self.emitted_view()[t] == old(self).emitted_view()[t]);
                assert(old(self).inserted_view().contains_key((t + 1) as u64));
                assert((t + 1) as u64 != msg.seq);
            }
        }
    }

    /// Releases the reply owed next, if it has arrived.
    #[verifier::loop_isolation(false)]
    pub fn pop_ready(&mut self) -> (r: Option<ResponseValue>)
        requires
            old(self).wf(),
        ensures
            final(self).wf(),
            final(self).inserted_view() == old(self).inserted_view(),
            match r {
                Some(v) => {
                    &&& old(self).has_ready()
                    &&& old(self).inserted_view().contains_key(old(self).next_seq())
                    &&& v@ == old(self).inserted_view()[old(self).next_seq()]
                    &&& final(self).next_seq() == old(self).next_seq() + 1
                    &&& final(self).emitted_view() == old(self).emitted_view().push(v@)
                    &&& final(self).pending_view().len() + 1 == old(self).pending_view().len()
                },
                None => {
                    &&& !old(self).has_ready()
                    &&& final(self).next_seq() == old(self).next_seq()
                    &&& final(self).emitted_view() == old(self).emitted_view()
                    &&& final(self).pending_view() == old(self).pending_view()
                },
            },
    {
        let mut i: usize = 0;
        while i < self.pending.len()
            invariant
                *self == *old(self),
                0 <= i <= self.pending_view().len(),
                forall|j: int| 0 <= j < i ==> #[trigger] self.pending_view()[j].seq != self.next,
            decreases self.pending_view().len() - i,
        {
            if self.pending[i].seq == self.next {
                let ghost pre_pending = self.pending@;
                let ghost pre_emitted = self.emitted@;
                proof {
                    assert(pre_pending[i as int].seq == self.next);
                    assert(pre_pending[i as int].seq < u64::MAX);
                }
                let msg = self.pending.remove(i);
                proof {
                    assert(self.pending@ =~= pre_pending.remove(i as int));
                    self.emitted@ = self.emitted@.push(rv_view(msg.response_value));
                }
                self.next = self.next + 1;
                proof {
                    assert forall|p: int, q: int|
                        0 <= p < q < self.pending_view().len() implies #[trigger] self.pending_view()[p].seq
                        != #[trigger] self.pending_view()[q].seq by {
                        let p0: int = if p < i {
                            p
                        } else {
                            p + 1
                        };
                        let q0: int = if q < i {
                            q
                        } else {
                            q + 1
                        };
                        assert(self.pending_view()[p] == pre_pending[p0]);
                        assert(self.pending_view()[q] == pre_pending[q0]);
                    }
                    assert forall|j: int|
                        0 <= j < self.pending_view().len() implies (
                        #[trigger] self.pending_view()[j].seq >= self.next
                            && self.pending_view()[j].seq < u64::MAX
                            && self.inserted_view().contains_key(self.pending_view()[j].seq)
                            && rv_view(self.pending_view()[j].response_value)
                            == self.inserted_view().index(self.pending_view()[j].seq)) by {
                        let j0: int = if j < i {
                            j
                        } else {
                            j + 1
                        };
                        assert(self.pending_view()[j] == pre_pending[j0]);
                        assert(pre_pending[j0].seq != pre_pending[i as int].seq);
                    }
                    assert forall|t: int|
                        0 <= t < self.emitted_view().len() implies self.inserted_view().contains_key(
                        (t + 1) as u64,
                    ) && #[trigger] self.emitted_view()[t] == self.inserted_view().index(
                        (t + 1) as u64,
                    ) by {
                        if t < pre_emitted.len() {
                            assert(self.emitted_view()[t] == pre_emitted[t]);
                            assert(old(self).emitted_view()[t] == pre_emitted[t]);
                        } else {
                            assert(self.emitted_view()[t] == rv_view(msg.response_value));
                            assert(msg == pre_pending[i as int]);
                            assert(old(self).pending_view()[i as int] == msg);
                            assert((t + 1) as u64 == msg.seq);
                        }
                    }
                }
                return Some(msg.response_value);
            }
            i += 1;
        }
        None
    }
}

/// What a connection, having released `emitted` replies, has released:
/// exactly the replies handed in with sequences one through that count, in
/// sequence order. Arrival order never matters.
pub proof fn lemma_replies_in_order(rb: ReorderBuffer)
    requires
        rb.wf(),
    ensures
        rb.emitted_view().len() == rb.next_seq() - 1,
        forall|t: int|
            0 <= t < rb.emitted_view().len() ==> #[trigger] rb.emitted_view()[t]
                == rb.inserted_view()[(t + 1) as u64],
{
}

/// The one reply written before a connection closes on a fatal parse
/// error; `Incomplete` is not fatal and yields none.
pub fn fatal_reply(e: &BufParseError, seq: u64) -> (r: Option<ResponseMessage>)
    ensures
        match e {
            BufParseError::Incomplete => r is None,
            BufParseError::InvalidFirstByte(b) => r matches Some(m) && m.seq == seq && rv_view(
                m.response_value,
            ) == RespData::Error(first_byte_prefix_text() + dec_digits(*b as nat)),
            _ => r matches Some(m) && m.seq == seq && rv_view(m.response_value)
                == RespData::Error(protocol_text()),
        },
{
    match e {
        BufParseError::Incomplete => None,
        BufParseError::InvalidFirstByte(b) => {
            let mut text = first_byte_prefix_bytes();
            let digits = crate::num::u64_to_dec(*b as u64);
            let mut k: usize = 0;
            while k < digits.len()
                invariant
                    0 <= k <= digits@.len(),
                    text@ == first_byte_prefix_text() + digits@.take(k as int),
                decreases digits@.len() - k,
            {
                text.push(digits[k]);
                proof {
                    assert(text@ =~= first_byte_prefix_text() + digits@.take(k + 1));
                }
                k += 1;
            }
            proof {
                assert(digits@.take(digits@.len() as int) =~= digits@);
            }
            Some(
                ResponseMessage {
                    seq,
                    response_value: ResponseValue::Error(bytes_from_vec(text)),
                },
            )
        },
        _ => Some(
            ResponseMessage {
                seq,
                response_value: ResponseValue::Error(bytes_from_vec(protocol_bytes())),
            },
        ),
    }
}

} // verus!
