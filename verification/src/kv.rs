//! The typed in-memory value store owned by one shard: byte-string keys
//! mapped to strings, lists, or sets of byte strings.
//!
//! The store is viewed as a mathematical map from key bytes to an abstract
//! value. Every operation states exactly how it changes that map; a list or
//! set entry is removed the moment it becomes empty, so no observer ever
//! sees an empty container bound to a key.
use vstd::prelude::*;
use vstd::seq_lib::*;
use crate::byteops::{bytes_view, bytes_equal};

verus! {

/// Why a store operation failed.
#[derive(Debug, PartialEq, Eq, Structural, Clone, Copy)]
pub enum DatabaseError {
    /// The key holds a value of a kind the operation does not apply to.
    WrongType,
}

/// A stored value.
#[derive(Debug, PartialEq)]
pub enum RedisValue {
    String(bytes::Bytes),
    List(std::collections::VecDeque<bytes::Bytes>),
    SetValue(Vec<bytes::Bytes>),
}

/// The abstract form of a stored value.
#[verifier::ext_equal]
pub enum ValModel {
    Str(Seq<u8>),
    List(Seq<Seq<u8>>),
    SetValue(Set<Seq<u8>>),
}

/// The byte sequences behind a run of `Bytes` handles, elementwise.
pub open spec fn bytes_views(items: Seq<bytes::Bytes>) -> Seq<Seq<u8>> {
    Seq::new(items.len(), |i: int| bytes_view(items[i]))
}

/// The abstract value a `RedisValue` stands for.
pub open spec fn vm(v: RedisValue) -> ValModel {
    match v {
        RedisValue::String(b) => ValModel::Str(bytes_view(b)),
        RedisValue::List(l) => ValModel::List(bytes_views(l@)),
        RedisValue::SetValue(s) => ValModel::SetValue(bytes_views(s@).to_set()),
    }
}

/// A stored value that may legally sit in the store: containers are
/// non-empty, and a set holds no duplicate member.
pub open spec fn value_ok(v: RedisValue) -> bool {
    match v {
        RedisValue::String(_) => true,
        RedisValue::List(l) => l@.len() > 0,
        RedisValue::SetValue(s) => s@.len() > 0 && bytes_views(s@).no_duplicates(),
    }
}

pub open spec fn entry_keys(s: Seq<(bytes::Bytes, RedisValue)>) -> Seq<Seq<u8>> {
    Seq::new(s.len(), |i: int| bytes_view(s[i].0))
}

/// The value bound to `k`, scanning entries from the front.
pub open spec fn lookup(s: Seq<(bytes::Bytes, RedisValue)>, k: Seq<u8>) -> Option<ValModel>
    decreases s.len(),
{
    if s.len() == 0 {
        None
    } else if bytes_view(s[0].0) == k {
        Some(vm(s[0].1))
    } else {
        lookup(s.drop_first(), k)
    }
}

/// The per-shard store: an association list with pairwise distinct keys.
pub struct KvStore {
    entries: Vec<(bytes::Bytes, RedisValue)>,
}

impl KvStore {
    pub closed spec fn entries_view(&self) -> Seq<(bytes::Bytes, RedisValue)> {
        self.entries@
    }

    /// Keys are pairwise distinct and every value may legally be stored.
    pub open spec fn wf(&self) -> bool {
        &&& entry_keys(self.entries_view()).no_duplicates()
        &&& forall|i: int|
            0 <= i < self.entries_view().len() ==> value_ok(#[trigger] self.entries_view()[i].1)
    }

    /// The store as a map from key bytes to abstract values.
    pub open spec fn view(&self) -> Map<Seq<u8>, ValModel> {
        Map::new(
            |k: Seq<u8>| lookup(self.entries_view(), k) is Some,
            |k: Seq<u8>| lookup(self.entries_view(), k)->0,
        )
    }
}

/// `lookup` finds exactly the entry whose key matches, when keys are
/// pairwise distinct.
pub proof fn lemma_lookup_at(s: Seq<(bytes::Bytes, RedisValue)>, i: int)
    requires
        entry_keys(s).no_duplicates(),
        0 <= i < s.len(),
    ensures
        lookup(s, bytes_view(s[i].0)) == Some(vm(s[i].1)),
    decreases s.len(),
{
    if i > 0 {
        assert(entry_keys(s)[0] != entry_keys(s)[i]);
        assert(entry_keys(s.drop_first()) =~= entry_keys(s).drop_first());
        lemma_lookup_at(s.drop_first(), i - 1);
    }
}

/// A key that matches no entry is absent.
pub proof fn lemma_lookup_none(s: Seq<(bytes::Bytes, RedisValue)>, k: Seq<u8>)
    requires
        forall|i: int| 0 <= i < s.len() ==> bytes_view(#[trigger] s[i].0) != k,
    ensures
        lookup(s, k) is None,
    decreases s.len(),
{
    if s.len() > 0 {
        lemma_lookup_none(s.drop_first(), k);
    }
}

/// Removing entry `i` removes exactly its key from the lookup relation.
pub proof fn lemma_lookup_remove(s: Seq<(bytes::Bytes, RedisValue)>, i: int)
    requires
        entry_keys(s).no_duplicates(),
        0 <= i < s.len(),
    ensures
        forall|k: Seq<u8>| #[trigger] lookup(s.remove(i), k) == if k == bytes_view(s[i].0) {
            None::<ValModel>
        } else {
            lookup(s, k)
        },
        entry_keys(s.remove(i)).no_duplicates(),
    decreases s.len(),
{
    assert(entry_keys(s.remove(i)) =~= entry_keys(s).remove(i));
    let ks = entry_keys(s);
    assert forall|p: int, q: int|
        (0 <= p < ks.remove(i).len() && 0 <= q < ks.remove(i).len() && p != q) implies ks.remove(
        i,
    )[p] != ks.remove(i)[q] by {
        let p0: int = if p < i {
            p
        } else {
            p + 1
        };
        let q0: int = if q < i {
            q
        } else {
            q + 1
        };
        assert(ks.remove(i)[p] == ks[p0]);
        assert(ks.remove(i)[q] == ks[q0]);
    }
    assert forall|k: Seq<u8>| #[trigger] lookup(s.remove(i), k) == (if k == bytes_view(s[i].0) {
        None::<ValModel>
    } else {
        lookup(s, k)
    }) by {
        lemma_lookup_remove_one(s, i, k);
    }
}

proof fn lemma_lookup_remove_one(s: Seq<(bytes::Bytes, RedisValue)>, i: int, k: Seq<u8>)
    requires
        entry_keys(s).no_duplicates(),
        0 <= i < s.len(),
    ensures
        lookup(s.remove(i), k) == if k == bytes_view(s[i].0) {
            None::<ValModel>
        } else {
            lookup(s, k)
        },
    decreases s.len(),
{
    if i == 0 {
        assert(s.remove(0) =~= s.drop_first());
        if k == bytes_view(s[0].0) {
            assert forall|j: int| 0 <= j < s.drop_first().len() implies bytes_view(
                #[trigger] s.drop_first()[j].0,
            ) != k by {
                assert(entry_keys(s)[j + 1] == bytes_view(s.drop_first()[j].0));
                assert(entry_keys(s)[0] != entry_keys(s)[j + 1]);
            }
            lemma_lookup_none(s.drop_first(), k);
        }
    } else {
        assert(entry_keys(s.drop_first()) =~= entry_keys(s).drop_first());
        assert(entry_keys(s)[0] == bytes_view(s[0].0));
        assert(entry_keys(s)[i] == bytes_view(s[i].0));
        assert(bytes_view(s[0].0) != bytes_view(s[i].0));
        lemma_lookup_remove_one(s.drop_first(), i - 1, k);
        assert(s.remove(i).drop_first() =~= s.drop_first().remove(i - 1));
        assert(s.remove(i)[0] == s[0]);
        assert(s.drop_first()[i - 1] == s[i]);
        if k == bytes_view(s[0].0) {
            assert(lookup(s.remove(i), k) == Some(vm(s[0].1)));
            assert(lookup(s, k) == Some(vm(s[0].1)));
        } else {
            assert(lookup(s.remove(i), k) == lookup(s.remove(i).drop_first(), k));
            assert(lookup(s, k) == lookup(s.drop_first(), k));
        }
    }
}

/// Appending an entry binds its key, leaving every other key unchanged,
/// provided the key is not already bound.
pub proof fn lemma_lookup_push(
    s: Seq<(bytes::Bytes, RedisValue)>,
    e: (bytes::Bytes, RedisValue),
)
    requires
        lookup(s, bytes_view(e.0)) is None,
    ensures
        forall|k: Seq<u8>| #[trigger] lookup(s.push(e), k) == if k == bytes_view(e.0) {
            Some(vm(e.1))
        } else {
            lookup(s, k)
        },
    decreases s.len(),
{
    assert forall|k: Seq<u8>| #[trigger] lookup(s.push(e), k) == (if k == bytes_view(e.0) {
        Some(vm(e.1))
    } else {
        lookup(s, k)
    }) by {
        lemma_lookup_push_one(s, e, k);
    }
}

proof fn lemma_lookup_push_one(
    s: Seq<(bytes::Bytes, RedisValue)>,
    e: (bytes::Bytes, RedisValue),
    k: Seq<u8>,
)
    requires
        lookup(s, bytes_view(e.0)) is None,
    ensures
        lookup(s.push(e), k) == if k == bytes_view(e.0) {
            Some(vm(e.1))
        } else {
            lookup(s, k)
        },
    decreases s.len(),
{
    if s.len() == 0 {
        assert(s.push(e)[0] == e);
        assert(s.push(e).drop_first() =~= Seq::<(bytes::Bytes, RedisValue)>::empty());
        if k == bytes_view(e.0) {
            assert(lookup(s.push(e), k) == Some(vm(e.1)));
        } else {
            assert(lookup(s.push(e), k) == lookup(s.push(e).drop_first(), k));
        }
    } else {
        assert(s.push(e)[0] == s[0]);
        assert(s.push(e).drop_first() =~= s.drop_first().push(e));
        assert(bytes_view(s[0].0) != bytes_view(e.0));
        lemma_lookup_push_one(s.drop_first(), e, k);
        if k == bytes_view(s[0].0) {
            assert(lookup(s.push(e), k) == Some(vm(s[0].1)));
            assert(lookup(s, k) == Some(vm(s[0].1)));
        } else {
            assert(lookup(s.push(e), k) == lookup(s.drop_first().push(e), k));
            assert(lookup(s, k) == lookup(s.drop_first(), k));
        }
    }
}

/// Appending an entry with a fresh key keeps the keys pairwise distinct.
pub proof fn lemma_keys_push(s: Seq<(bytes::Bytes, RedisValue)>, e: (bytes::Bytes, RedisValue))
    requires
        entry_keys(s).no_duplicates(),
        forall|i: int| 0 <= i < s.len() ==> bytes_view(#[trigger] s[i].0) != bytes_view(e.0),
    ensures
        entry_keys(s.push(e)).no_duplicates(),
{
    assert(entry_keys(s.push(e)) =~= entry_keys(s).push(bytes_view(e.0)));
    assert forall|i: int, j: int|
        0 <= i < j < entry_keys(s.push(e)).len() implies entry_keys(s.push(e))[i] != entry_keys(
        s.push(e),
    )[j] by {
        if j == s.len() {
            assert(entry_keys(s.push(e))[i] == bytes_view(s[i].0));
        } else {
            assert(entry_keys(s.push(e))[i] == entry_keys(s)[i]);
            assert(entry_keys(s.push(e))[j] == entry_keys(s)[j]);
        }
    }
}

impl Default for KvStore {
    /// An empty store.
    fn default() -> (r: Self)
        ensures
            r.wf(),
            r@ =~= Map::<Seq<u8>, ValModel>::empty(),
    {
        Self::new()
    }
}

impl KvStore {
    pub fn new() -> (r: Self)
        ensures
            r.wf(),
            r@ =~= Map::<Seq<u8>, ValModel>::empty(),
    {
        let r = KvStore { entries: Vec::new() };
        proof {
            assert(entry_keys(r.entries_view()) =~= Seq::<Seq<u8>>::empty());
        }
        r
    }

    /// Finds the entry for `key`, if any.
    #[verifier::loop_isolation(false)]
    fn find(&self, key: &bytes::Bytes) -> (r: Option<usize>)
        requires
            self.wf(),
        ensures
            match r {
                Some(i) => i < self.entries_view().len() && bytes_view(
                    self.entries_view()[i as int].0,
                ) == bytes_view(*key) && lookup(self.entries_view(), bytes_view(*key)) == Some(
                    vm(self.entries_view()[i as int].1),
                ),
                None => lookup(self.entries_view(), bytes_view(*key)) is None,
            },
    {
        let mut i: usize = 0;
        while i < self.entries.len()
            invariant
                0 <= i <= self.entries_view().len(),
                forall|j: int|
                    0 <= j < i ==> bytes_view(#[trigger] self.entries_view()[j].0) != bytes_view(
                        *key,
                    ),
            decreases self.entries_view().len() - i,
        {
            if bytes_equal(&self.entries[i].0, key) {
                proof {
                    lemma_lookup_at(self.entries_view(), i as int);
                }
                return Some(i);
            }
            i += 1;
        }
        proof {
            lemma_lookup_none(self.entries_view(), bytes_view(*key));
        }
        None
    }

    /// Removes the entry at `i`, returning it.
    fn take_at(&mut self, i: usize) -> (r: (bytes::Bytes, RedisValue))
        requires
            old(self).wf(),
            i < old(self).entries_view().len(),
        ensures
            final(self).wf(),
            r == old(self).entries_view()[i as int],
            final(self).entries_view() == old(self).entries_view().remove(i as int),
            final(self)@ =~= old(self)@.remove(bytes_view(r.0)),
    {
        proof {
            lemma_lookup_remove(self.entries_view(), i as int);
        }
        let e = self.entries.remove(i);
        e
    }

    /// Appends an entry whose key is not yet bound.
    fn put(&mut self, key: bytes::Bytes, value: RedisValue)
        requires
            old(self).wf(),
            lookup(old(self).entries_view(), bytes_view(key)) is None,
            value_ok(value),
        ensures
            final(self).wf(),
            final(self)@ =~= old(self)@.insert(bytes_view(key), vm(value)),
    {
        proof {
            let s = self.entries_view();
            assert forall|i: int| 0 <= i < s.len() implies bytes_view(#[trigger] s[i].0)
                != bytes_view(key) by {
                lemma_lookup_at(s, i);
            }
            lemma_keys_push(s, (key, value));
            lemma_lookup_push(s, (key, value));
        }
        self.entries.push((key, value));
    }

    /// Binds `key` to the byte string `value`, replacing any previous value
    /// of any kind.
    pub fn set(&mut self, key: bytes::Bytes, value: bytes::Bytes) -> (r: Result<
        (),
        DatabaseError,
    >)
        requires
            old(self).wf(),
        ensures
            final(self).wf(),
            r is Ok,
            final(self)@ =~= old(self)@.insert(
                bytes_view(key),
                ValModel::Str(bytes_view(value)),
            ),
    {
        match self.find(&key) {
            Some(i) => {
                let _ = self.take_at(i);
                proof {
                    assert(!self@.contains_key(bytes_view(key)));
                    assert(lookup(self.entries_view(), bytes_view(key)) is None);
                }
                self.put(key, RedisValue::String(value));
            },
            None => {
                self.put(key, RedisValue::String(value));
            },
        }
        Ok(())
    }

    /// Reads the value bound to `key`, of whatever kind, as a cheap
    /// reference-counted copy.
    pub fn get(&self, key: &bytes::Bytes) -> (r: Result<Option<RedisValue>, DatabaseError>)
        requires
            self.wf(),
        ensures
            r is Ok,
            match r->Ok_0 {
                Some(v) => self@.contains_key(bytes_view(*key)) && vm(v) == self@[bytes_view(
                    *key,
                )],
                None => !self@.contains_key(bytes_view(*key)),
            },
    {
        match self.find(key) {
            Some(i) => Ok(Some(self.entries[i].1.duplicate())),
            None => Ok(None),
        }
    }

    /// Unbinds `key`; reports whether it was bound.
    pub fn del(&mut self, key: &bytes::Bytes) -> (r: Result<bool, DatabaseError>)
        requires
            old(self).wf(),
        ensures
            final(self).wf(),
            r == Ok::<bool, DatabaseError>(old(self)@.contains_key(bytes_view(*key))),
            final(self)@ =~= old(self)@.remove(bytes_view(*key)),
    {
        match self.find(key) {
            Some(i) => {
                let _ = self.take_at(i);
                Ok(true)
            },
            None => {
                proof {
                    assert(self@ =~= self@.remove(bytes_view(*key)));
                }
                Ok(false)
            },
        }
    }
}

impl RedisValue {
    /// A copy standing for the same abstract value; byte payloads share
    /// their backing memory.
    pub fn duplicate(&self) -> (r: Self)
        ensures
            vm(r) == vm(*self),
            value_ok(*self) ==> value_ok(r),
    {
        match self {
            RedisValue::String(b) => RedisValue::String(b.clone()),
            RedisValue::List(l) => {
                let mut out: std::collections::VecDeque<bytes::Bytes> =
                    std::collections::VecDeque::new();
                let mut i: usize = 0;
                while i < l.len()
                    invariant
                        0 <= i <= l@.len(),
                        out@.len() == i,
                        forall|j: int| 0 <= j < i ==> bytes_view(#[trigger] out@[j]) == bytes_view(
                            l@[j],
                        ),
                    decreases l@.len() - i,
                {
                    out.push_back(l[i].clone());
                    i += 1;
                }
                let r = RedisValue::List(out);
                proof {
                    assert(bytes_views(out@) =~= bytes_views(l@));
                }
                r
            },
            RedisValue::SetValue(s) => {
                let mut out: Vec<bytes::Bytes> = Vec::new();
                let mut i: usize = 0;
                while i < s.len()
                    invariant
                        0 <= i <= s@.len(),
                        out@.len() == i,
                        forall|j: int| 0 <= j < i ==> bytes_view(#[trigger] out@[j]) == bytes_view(
                            s@[j],
                        ),
                    decreases s@.len() - i,
                {
                    out.push(s[i].clone());
                    i += 1;
                }
                let r = RedisValue::SetValue(out);
                proof {
                    assert(bytes_views(out@) =~= bytes_views(s@));
                }
                r
            },
        }
    }
}


/// Saturates a length into the `i64` range.
pub open spec fn sat_len(n: int) -> int {
    if n > i64::MAX {
        i64::MAX as int
    } else {
        n
    }
}

/// Converts a container length to the `i64` carried in an integer reply.
pub fn sat_len_i64(n: usize) -> (r: i64)
    ensures
        r as int == sat_len(n as int),
{
    let wide: u64 = n as u64;
    if wide > 9223372036854775807u64 {
        i64::MAX
    } else {
        wide as i64
    }
}

/// The half-open index range selected by a `start`/`stop` pair under the
/// list range rules: negative indices count from the end, `start` clamps
/// to `[0, len]`, `stop` clamps to `[0, len - 1]`, and an inverted or
/// empty selection yields the empty range.
pub open spec fn spec_range(start: int, stop: int, len: int) -> (int, int) {
    let s0 = if start < 0 {
        len + start
    } else {
        start
    };
    let e0 = if stop < 0 {
        len + stop
    } else {
        stop
    };
    let s1 = if s0 < 0 {
        0
    } else if s0 > len {
        len
    } else {
        s0
    };
    let e1 = if e0 < 0 {
        0
    } else if e0 > len - 1 {
        len - 1
    } else {
        e0
    };
    if len == 0 || s1 > e1 {
        (0, 0)
    } else {
        (s1, e1 + 1)
    }
}

/// The selected range sits inside the list.
pub proof fn lemma_spec_range_bounds(start: int, stop: int, len: int)
    requires
        len >= 0,
    ensures
        0 <= spec_range(start, stop, len).0 <= spec_range(start, stop, len).1 <= len,
{
}

/// Resolves a `start`/`stop` pair to the half-open range it selects in a
/// list of `len` elements.
pub fn resolve_range(start: i64, stop: i64, len: usize) -> (r: (usize, usize))
    ensures
        r.0 as int == spec_range(start as int, stop as int, len as int).0,
        r.1 as int == spec_range(start as int, stop as int, len as int).1,
        r.0 <= r.1 <= len,
{
    proof {
        lemma_spec_range_bounds(start as int, stop as int, len as int);
    }
    let wide_len: i128 = len as i128;
    let s0: i128 = if start < 0 {
        wide_len + start as i128
    } else {
        start as i128
    };
    let e0: i128 = if stop < 0 {
        wide_len + stop as i128
    } else {
        stop as i128
    };
    let s1: i128 = if s0 < 0 {
        0
    } else if s0 > wide_len {
        wide_len
    } else {
        s0
    };
    let e1: i128 = if e0 < 0 {
        0
    } else if e0 > wide_len - 1 {
        wide_len - 1
    } else {
        e0
    };
    if len == 0 || s1 > e1 {
        (0, 0)
    } else {
        ((s1 as usize), ((e1 + 1) as usize))
    }
}

impl KvStore {
    /// Pushes each value in argument order onto the head of the list at
    /// `key`, creating the list if the key is unbound.
    #[verifier::loop_isolation(false)]
    pub fn lpush(&mut self, key: bytes::Bytes, values: Vec<bytes::Bytes>) -> (r: Result<
        i64,
        DatabaseError,
    >)
        requires
            old(self).wf(),
        ensures
            final(self).wf(),
            ({
                let k = bytes_view(key);
                let vs = bytes_views(values@);
                if old(self)@.contains_key(k) && !(old(self)@[k] is List) {
                    r == Err::<i64, DatabaseError>(DatabaseError::WrongType) && final(self)@
                        =~= old(self)@
                } else {
                    let l0 = if old(self)@.contains_key(k) {
                        old(self)@[k]->List_0
                    } else {
                        Seq::<Seq<u8>>::empty()
                    };
                    let l1 = vs.reverse() + l0;
                    &&& r == Ok::<i64, DatabaseError>(sat_len(l1.len() as int) as i64)
                    &&& if l1.len() == 0 {
                        final(self)@ =~= old(self)@
                    } else {
                        final(self)@ =~= old(self)@.insert(k, ValModel::List(l1))
                    }
                }
            }),
    {
        let ghost k = bytes_view(key);
        let ghost vs = bytes_views(values@);
        let mut list: std::collections::VecDeque<bytes::Bytes>;
        let ghost l0: Seq<Seq<u8>>;
        match self.find(&key) {
            Some(i) => {
                let is_list = match &self.entries[i].1 {
                    RedisValue::List(_) => true,
                    _ => false,
                };
                if !is_list {
                    return Err(DatabaseError::WrongType);
                }
                let e = self.take_at(i);
                proof {
                    assert(!self@.contains_key(k));
                    assert(lookup(self.entries_view(), k) is None);
                }
                match e.1 {
                    RedisValue::List(l) => {
                        list = l;
                        proof {
                            l0 = bytes_views(list@);
                        }
                    },
                    _ => {
                        proof {
                            assert(false);
                        }
                        return Err(DatabaseError::WrongType);
                    },
                }
            },
            None => {
                list = std::collections::VecDeque::new();
                proof {
                    l0 = bytes_views(list@);
                    assert(l0 =~= Seq::<Seq<u8>>::empty());
                }
            },
        }
        let mut i: usize = 0;
        proof {
            assert(vs.take(0).reverse() =~= Seq::<Seq<u8>>::empty());
            assert(bytes_views(list@) =~= vs.take(0).reverse() + l0);
        }
        while i < values.len()
            invariant
                0 <= i <= values@.len(),
                bytes_views(list@) == vs.take(i as int).reverse() + l0,
                list@.len() == i + l0.len(),
            decreases values@.len() - i,
        {
            let ghost prev = list@;
            let v = values[i].clone();
            let ghost vv = bytes_view(v);
            list.push_front(v);
            proof {
                assert(vv == vs[i as int]);
                assert(list@ =~= seq![v] + prev);
                assert(bytes_views(list@) =~= seq![vv] + bytes_views(prev));
                assert(vs.take(i + 1).reverse() =~= seq![vs[i as int]] + vs.take(
                    i as int,
                ).reverse());
                assert(bytes_views(list@) =~= vs.take(i + 1).reverse() + l0);
            }
            i += 1;
        }
        proof {
            assert(vs.take(values@.len() as int) =~= vs);
        }
        let new_len = list.len();
        if new_len == 0 {
            proof {
                assert(lookup(self.entries_view(), k) is None);
                assert(self@ =~= old(self)@);
            }
            return Ok(0);
        }
        let r = sat_len_i64(new_len);
        self.put(key, RedisValue::List(list));
        Ok(r)
    }

    /// Pushes each value in argument order onto the tail of the list at
    /// `key`, creating the list if the key is unbound.
    #[verifier::loop_isolation(false)]
    pub fn rpush(&mut self, key: bytes::Bytes, values: Vec<bytes::Bytes>) -> (r: Result<
        i64,
        DatabaseError,
    >)
        requires
            old(self).wf(),
        ensures
            final(self).wf(),
            ({
                let k = bytes_view(key);
                let vs = bytes_views(values@);
                if old(self)@.contains_key(k) && !(old(self)@[k] is List) {
                    r == Err::<i64, DatabaseError>(DatabaseError::WrongType) && final(self)@
                        =~= old(self)@
                } else {
                    let l0 = if old(self)@.contains_key(k) {
                        old(self)@[k]->List_0
                    } else {
                        Seq::<Seq<u8>>::empty()
                    };
                    let l1 = l0 + vs;
                    &&& r == Ok::<i64, DatabaseError>(sat_len(l1.len() as int) as i64)
                    &&& if l1.len() == 0 {
                        final(self)@ =~= old(self)@
                    } else {
                        final(self)@ =~= old(self)@.insert(k, ValModel::List(l1))
                    }
                }
            }),
    {
        let ghost k = bytes_view(key);
        let ghost vs = bytes_views(values@);
        let mut list: std::collections::VecDeque<bytes::Bytes>;
        let ghost l0: Seq<Seq<u8>>;
        match self.find(&key) {
            Some(i) => {
                let is_list = match &self.entries[i].1 {
                    RedisValue::List(_) => true,
                    _ => false,
                };
                if !is_list {
                    return Err(DatabaseError::WrongType);
                }
                let e = self.take_at(i);
                proof {
                    assert(!self@.contains_key(k));
                    assert(lookup(self.entries_view(), k) is None);
                }
                match e.1 {
                    RedisValue::List(l) => {
                        list = l;
                        proof {
                            l0 = bytes_views(list@);
                        }
                    },
                    _ => {
                        proof {
                            assert(false);
                        }
                        return Err(DatabaseError::WrongType);
                    },
                }
            },
            None => {
                list = std::collections::VecDeque::new();
                proof {
                    l0 = bytes_views(list@);
                    assert(l0 =~= Seq::<Seq<u8>>::empty());
                }
            },
        }
        let mut i: usize = 0;
        proof {
            assert(bytes_views(list@) =~= l0 + vs.take(0));
        }
        while i < values.len()
            invariant
                0 <= i <= values@.len(),
                bytes_views(list@) == l0 + vs.take(i as int),
                list@.len() == i + l0.len(),
            decreases values@.len() - i,
        {
            let ghost prev = list@;
            let v = values[i].clone();
            let ghost vv = bytes_view(v);
            list.push_back(v);
            proof {
                assert(vv == vs[i as int]);
                assert(list@ =~= prev.push(v));
                assert(bytes_views(list@) =~= bytes_views(prev).push(vv));
                assert(l0 + vs.take(i + 1) =~= (l0 + vs.take(i as int)).push(vs[i as int]));
                assert(bytes_views(list@) =~= l0 + vs.take(i + 1));
            }
            i += 1;
        }
        proof {
            assert(vs.take(values@.len() as int) =~= vs);
        }
        let new_len = list.len();
        if new_len == 0 {
            proof {
                assert(lookup(self.entries_view(), k) is None);
                assert(self@ =~= old(self)@);
            }
            return Ok(0);
        }
        let r = sat_len_i64(new_len);
        self.put(key, RedisValue::List(list));
        Ok(r)
    }

    /// Removes and returns up to `count` elements from the head of the
    /// list at `key`, in head-to-tail order; removes the key if the list
    /// empties.
    #[verifier::loop_isolation(false)]
    pub fn lpop(&mut self, key: &bytes::Bytes, count: i64) -> (r: Result<
        Vec<bytes::Bytes>,
        DatabaseError,
    >)
        requires
            old(self).wf(),
            count >= 0,
        ensures
            final(self).wf(),
            ({
                let k = bytes_view(*key);
                if !old(self)@.contains_key(k) {
                    r matches Ok(v) && bytes_views(v@) =~= Seq::<Seq<u8>>::empty() && final(self)@ =~= old(self)@
                } else if !(old(self)@[k] is List) {
                    r == Err::<Vec<bytes::Bytes>, DatabaseError>(DatabaseError::WrongType)
                        && final(self)@ =~= old(self)@
                } else {
                    let l0 = old(self)@[k]->List_0;
                    let n = if count as int <= l0.len() {
                        count as int
                    } else {
                        l0.len() as int
                    };
                    &&& r matches Ok(v) && bytes_views(v@) =~= l0.take(n)
                    &&& if n == l0.len() {
                        final(self)@ =~= old(self)@.remove(k)
                    } else {
                        final(self)@ =~= old(self)@.insert(k, ValModel::List(l0.skip(n)))
                    }
                }
            }),
    {
        let ghost k = bytes_view(*key);
        match self.find(key) {
            Some(i) => {
                let is_list = match &self.entries[i].1 {
                    RedisValue::List(_) => true,
                    _ => false,
                };
                if !is_list {
                    return Err(DatabaseError::WrongType);
                }
                let e = self.take_at(i);
                proof {
                    assert(!self@.contains_key(k));
                    assert(lookup(self.entries_view(), k) is None);
                }
                match e.1 {
                    RedisValue::List(mut l) => {
                        let ghost l0 = bytes_views(l@);
                        let len = l.len();
                        let take_n: usize = if (count as u64) <= (len as u64) {
                            count as usize
                        } else {
                            len
                        };
                        let mut popped: Vec<bytes::Bytes> = Vec::new();
                        let mut j: usize = 0;
                        proof {
                            assert(bytes_views(popped@) =~= l0.take(0));
                        }
                        while j < take_n
                            invariant
                                0 <= j <= take_n <= l0.len(),
                                l@.len() == l0.len() - j,
                                bytes_views(l@) == l0.skip(j as int),
                                bytes_views(popped@) == l0.take(j as int),
                                popped@.len() == j,
                            decreases take_n - j,
                        {
                            let ghost prev_l = l@;
                            let ghost prev_p = popped@;
                            match l.pop_front() {
                                Some(x) => {
                                    proof {
                                        assert(x == prev_l[0]);
                                        assert(bytes_view(x) == bytes_views(prev_l)[0]);
                                        assert(bytes_view(x) == l0[j as int]);
                                        assert(l@ =~= prev_l.drop_first());
                                        assert(bytes_views(l@) =~= bytes_views(
                                            prev_l,
                                        ).drop_first());
                                        assert(l0.skip(j as int).drop_first() =~= l0.skip(j + 1));
                                    }
                                    popped.push(x);
                                    proof {
                                        assert(popped@ =~= prev_p.push(x));
                                        assert(bytes_views(popped@) =~= bytes_views(prev_p).push(
                                            bytes_view(x),
                                        ));
                                        assert(l0.take(j as int).push(l0[j as int]) =~= l0.take(
                                            j + 1,
                                        ));
                                    }
                                },
                                None => {
                                    proof {
                                        assert(false);
                                    }
                                },
                            }
                            j += 1;
                        }
                        if l.len() == 0 {
                            proof {
                                assert(l0.take(take_n as int) =~= l0.take(l0.len() as int));
                                assert(l0.take(l0.len() as int) =~= l0);
                            }
                            Ok(popped)
                        } else {
                            self.put(e.0, RedisValue::List(l));
                            Ok(popped)
                        }
                    },
                    _ => {
                        proof {
                            assert(false);
                        }
                        Err(DatabaseError::WrongType)
                    },
                }
            },
            None => {
                let empty: Vec<bytes::Bytes> = Vec::new();
                proof {
                    assert(bytes_views(empty@) =~= Seq::<Seq<u8>>::empty());
                }
                Ok(empty)
            },
        }
    }

    /// Removes and returns up to `count` elements from the tail of the
    /// list at `key`, keeping their stored order; removes the key if the
    /// list empties.
    #[verifier::loop_isolation(false)]
    pub fn rpop(&mut self, key: &bytes::Bytes, count: i64) -> (r: Result<
        Vec<bytes::Bytes>,
        DatabaseError,
    >)
        requires
            old(self).wf(),
            count >= 0,
        ensures
            final(self).wf(),
            ({
                let k = bytes_view(*key);
                if !old(self)@.contains_key(k) {
                    r matches Ok(v) && bytes_views(v@) =~= Seq::<Seq<u8>>::empty() && final(self)@ =~= old(self)@
                } else if !(old(self)@[k] is List) {
                    r == Err::<Vec<bytes::Bytes>, DatabaseError>(DatabaseError::WrongType)
                        && final(self)@ =~= old(self)@
                } else {
                    let l0 = old(self)@[k]->List_0;
                    let n = if count as int <= l0.len() {
                        count as int
                    } else {
                        l0.len() as int
                    };
                    &&& r matches Ok(v) && bytes_views(v@) =~= l0.skip(l0.len() - n)
                    &&& if n == l0.len() {
                        final(self)@ =~= old(self)@.remove(k)
                    } else {
                        final(self)@ =~= old(self)@.insert(
                            k,
                            ValModel::List(l0.take(l0.len() - n)),
                        )
                    }
                }
            }),
    {
        let ghost k = bytes_view(*key);
        match self.find(key) {
            Some(i) => {
                let is_list = match &self.entries[i].1 {
                    RedisValue::List(_) => true,
                    _ => false,
                };
                if !is_list {
                    return Err(DatabaseError::WrongType);
                }
                let e = self.take_at(i);
                proof {
                    assert(!self@.contains_key(k));
                    assert(lookup(self.entries_view(), k) is None);
                }
                match e.1 {
                    RedisValue::List(mut l) => {
                        let ghost l0 = bytes_views(l@);
                        let len = l.len();
                        let take_n: usize = if (count as u64) <= (len as u64) {
                            count as usize
                        } else {
                            len
                        };
                        let mut popped: Vec<bytes::Bytes> = Vec::new();
                        let mut j: usize = 0;
                        proof {
                            assert(bytes_views(popped@) =~= l0.skip(l0.len() as int));
                        }
                        while j < take_n
                            invariant
                                0 <= j <= take_n <= l0.len(),
                                l@.len() == l0.len() - j,
                                bytes_views(l@) == l0.take(l0.len() - j),
                                bytes_views(popped@) == l0.skip(l0.len() - j),
                                popped@.len() == j,
                            decreases take_n - j,
                        {
                            let ghost prev_l = l@;
                            let ghost prev_p = popped@;
                            match l.pop_back() {
                                Some(x) => {
                                    proof {
                                        assert(x == prev_l[prev_l.len() - 1]);
                                        assert(bytes_view(x) == bytes_views(prev_l)[prev_l.len()
                                            - 1]);
                                        assert(bytes_view(x) == l0[l0.len() - j - 1]);
                                        assert(l@ =~= prev_l.drop_last());
                                        assert(bytes_views(l@) =~= bytes_views(
                                            prev_l,
                                        ).drop_last());
                                        assert(l0.take(l0.len() - j).drop_last() =~= l0.take(
                                            l0.len() - j - 1,
                                        ));
                                    }
                                    popped.insert(0, x);
                                    proof {
                                        assert(popped@ =~= seq![x] + prev_p);
                                        assert(bytes_views(popped@) =~= seq![bytes_view(x)]
                                            + bytes_views(prev_p));
                                        assert(seq![l0[l0.len() - j - 1]] + l0.skip(l0.len() - j)
                                            =~= l0.skip(l0.len() - j - 1));
                                    }
                                },
                                None => {
                                    proof {
                                        assert(false);
                                    }
                                },
                            }
                            j += 1;
                        }
                        if l.len() == 0 {
                            proof {
                                assert(l0.skip(l0.len() - take_n) =~= l0.skip(0));
                                assert(l0.skip(0) =~= l0);
                            }
                            Ok(popped)
                        } else {
                            self.put(e.0, RedisValue::List(l));
                            Ok(popped)
                        }
                    },
                    _ => {
                        proof {
                            assert(false);
                        }
                        Err(DatabaseError::WrongType)
                    },
                }
            },
            None => {
                let empty: Vec<bytes::Bytes> = Vec::new();
                proof {
                    assert(bytes_views(empty@) =~= Seq::<Seq<u8>>::empty());
                }
                Ok(empty)
            },
        }
    }

    /// Reads the elements selected by `start`/`stop` under the range
    /// rules, in stored order; a missing key reads as the empty list.
    #[verifier::loop_isolation(false)]
    pub fn lrange(&self, key: &bytes::Bytes, start: i64, stop: i64) -> (r: Result<
        Vec<bytes::Bytes>,
        DatabaseError,
    >)
        requires
            self.wf(),
        ensures
            ({
                let k = bytes_view(*key);
                if !self@.contains_key(k) {
                    r matches Ok(v) && bytes_views(v@) =~= Seq::<Seq<u8>>::empty()
                } else if !(self@[k] is List) {
                    r == Err::<Vec<bytes::Bytes>, DatabaseError>(DatabaseError::WrongType)
                } else {
                    let l0 = self@[k]->List_0;
                    let rng = spec_range(start as int, stop as int, l0.len() as int);
                    r matches Ok(v) && bytes_views(v@) =~= l0.subrange(rng.0, rng.1)
                }
            }),
    {
        let ghost k = bytes_view(*key);
        match self.find(key) {
            Some(i) => {
                match &self.entries[i].1 {
                    RedisValue::List(l) => {
                        let ghost l0 = bytes_views(l@);
                        let (lo, hi) = resolve_range(start, stop, l.len());
                        let mut out: Vec<bytes::Bytes> = Vec::new();
                        let mut j: usize = lo;
                        proof {
                            assert(bytes_views(out@) =~= l0.subrange(lo as int, lo as int));
                        }
                        while j < hi
                            invariant
                                lo <= j <= hi,
                                bytes_views(out@) == l0.subrange(lo as int, j as int),
                                out@.len() == j - lo,
                            decreases hi - j,
                        {
                            out.push(l[j].clone());
                            proof {
                                assert(bytes_views(out@) =~= l0.subrange(lo as int, j + 1));
                            }
                            j += 1;
                        }
                        Ok(out)
                    },
                    _ => Err(DatabaseError::WrongType),
                }
            },
            None => {
                let empty: Vec<bytes::Bytes> = Vec::new();
                proof {
                    assert(bytes_views(empty@) =~= Seq::<Seq<u8>>::empty());
                }
                Ok(empty)
            },
        }
    }
}


/// Whether some element of `v` holds exactly the bytes of `x`.
#[verifier::loop_isolation(false)]
fn vec_contains_bytes(v: &Vec<bytes::Bytes>, x: &bytes::Bytes) -> (r: bool)
    ensures
        r == bytes_views(v@).contains(bytes_view(*x)),
{
    let mut i: usize = 0;
    while i < v.len()
        invariant
            0 <= i <= v@.len(),
            forall|j: int| 0 <= j < i ==> bytes_view(#[trigger] v@[j]) != bytes_view(*x),
        decreases v@.len() - i,
    {
        if bytes_equal(&v[i], x) {
            proof {
                assert(bytes_views(v@)[i as int] == bytes_view(*x));
            }
            return true;
        }
        i += 1;
    }
    proof {
        assert forall|j: int| 0 <= j < bytes_views(v@).len() implies bytes_views(v@)[j]
            != bytes_view(*x) by {
            assert(bytes_views(v@)[j] == bytes_view(v@[j]));
        }
    }
    false
}

impl KvStore {
    /// Adds each value to the set at `key`, creating the set if the key is
    /// unbound; reports how many members were newly inserted.
    #[verifier::loop_isolation(false)]
    pub fn sadd(&mut self, key: bytes::Bytes, values: Vec<bytes::Bytes>) -> (r: Result<
        i64,
        DatabaseError,
    >)
        requires
            old(self).wf(),
        ensures
            final(self).wf(),
            ({
                let k = bytes_view(key);
                let vset = bytes_views(values@).to_set();
                if old(self)@.contains_key(k) && !(old(self)@[k] is SetValue) {
                    r == Err::<i64, DatabaseError>(DatabaseError::WrongType) && final(self)@
                        =~= old(self)@
                } else {
                    let m0 = if old(self)@.contains_key(k) {
                        old(self)@[k]->SetValue_0
                    } else {
                        Set::<Seq<u8>>::empty()
                    };
                    let m1 = m0.union(vset);
                    &&& m1.finite()
                    &&& r == Ok::<i64, DatabaseError>(
                        sat_len(m1.len() as int - m0.len() as int) as i64,
                    )
                    &&& if m1.len() == 0 {
                        final(self)@ =~= old(self)@
                    } else {
                        final(self)@ =~= old(self)@.insert(k, ValModel::SetValue(m1))
                    }
                }
            }),
    {
        let ghost k = bytes_view(key);
        let ghost vs = bytes_views(values@);
        let mut members: Vec<bytes::Bytes>;
        let ghost m0: Set<Seq<u8>>;
        match self.find(&key) {
            Some(i) => {
                let is_set = match &self.entries[i].1 {
                    RedisValue::SetValue(_) => true,
                    _ => false,
                };
                if !is_set {
                    return Err(DatabaseError::WrongType);
                }
                let e = self.take_at(i);
                proof {
                    assert(!self@.contains_key(k));
                    assert(lookup(self.entries_view(), k) is None);
                }
                match e.1 {
                    RedisValue::SetValue(m) => {
                        members = m;
                        proof {
                            m0 = bytes_views(members@).to_set();
                        }
                    },
                    _ => {
                        proof {
                            assert(false);
                        }
                        return Err(DatabaseError::WrongType);
                    },
                }
            },
            None => {
                members = Vec::new();
                proof {
                    m0 = bytes_views(members@).to_set();
                    assert(bytes_views(members@) =~= Seq::<Seq<u8>>::empty());
                    assert(m0 =~= Set::<Seq<u8>>::empty());
                }
            },
        }
        let start_count: usize = members.len();
        let ghost start_len = members@.len();
        proof {
            bytes_views(members@).unique_seq_to_set();
            assert(m0.union(vs.take(0).to_set()) =~= m0);
        }
        let mut i: usize = 0;
        while i < values.len()
            invariant
                0 <= i <= values@.len(),
                start_len <= members@.len(),
                bytes_views(members@).no_duplicates(),
                bytes_views(members@).to_set() =~= m0.union(vs.take(i as int).to_set()),
                bytes_views(members@).to_set().len() == members@.len(),
            decreases values@.len() - i,
        {
            let ghost prev = members@;
            let present = vec_contains_bytes(&members, &values[i]);
            if !present {
                let v = values[i].clone();
                let ghost vv = bytes_view(v);
                members.push(v);
                proof {
                    assert(members@ =~= prev.push(v));
                    assert(bytes_views(members@) =~= bytes_views(prev).push(vv));
                    assert forall|p: int, q: int|
                        (0 <= p < bytes_views(members@).len() && 0 <= q < bytes_views(
                            members@,
                        ).len() && p != q) implies bytes_views(members@)[p] != bytes_views(
                        members@,
                    )[q] by {
                        if q == prev.len() {
                            assert(bytes_views(members@)[p] == bytes_views(prev)[p]);
                            assert(bytes_views(prev).contains(bytes_views(prev)[p]));
                        } else if p == prev.len() {
                            assert(bytes_views(members@)[q] == bytes_views(prev)[q]);
                            assert(bytes_views(prev).contains(bytes_views(prev)[q]));
                        }
                    }
                    bytes_views(members@).unique_seq_to_set();
                    assert(vv == vs[i as int]);
                    assert(bytes_views(members@).to_set() =~= bytes_views(prev).to_set().insert(
                        vs[i as int],
                    )) by {
                        assert forall|x: Seq<u8>|
                            bytes_views(members@).contains(x) implies bytes_views(
                            prev,
                        ).to_set().insert(vs[i as int]).contains(x) by {
                            let w = choose|w: int|
                                0 <= w < bytes_views(members@).len() && #[trigger] bytes_views(
                                    members@,
                                )[w] == x;
                            if w < prev.len() {
                                assert(bytes_views(prev)[w] == x);
                                assert(bytes_views(prev).contains(x));
                            } else {
                                assert(x == vs[i as int]);
                            }
                        }
                        assert forall|x: Seq<u8>|
                            bytes_views(prev).to_set().insert(vs[i as int]).contains(
                                x,
                            ) implies bytes_views(members@).contains(x) by {
                            if x == vs[i as int] {
                                assert(bytes_views(members@)[prev.len() as int] == x);
                            } else {
                                let w = choose|w: int|
                                    0 <= w < prev.len() && #[trigger] bytes_views(prev)[w] == x;
                                assert(bytes_views(members@)[w] == x);
                            }
                        }
                    }
                }
            }
            proof {
                assert(vs[i as int] == bytes_view(values@[i as int]));
                assert(vs.take(i + 1).to_set() =~= vs.take(i as int).to_set().insert(
                    vs[i as int],
                )) by {
                    assert forall|x: Seq<u8>| vs.take(i + 1).contains(x) implies vs.take(
                        i as int,
                    ).to_set().insert(vs[i as int]).contains(x) by {
                        let w = choose|w: int| 0 <= w < i + 1 && #[trigger] vs.take(i + 1)[w] == x;
                        if w < i {
                            assert(vs.take(i as int)[w] == x);
                            assert(vs.take(i as int).contains(x));
                        }
                    }
                    assert forall|x: Seq<u8>|
                        vs.take(i as int).to_set().insert(vs[i as int]).contains(
                            x,
                        ) implies vs.take(i + 1).contains(x) by {
                        if x == vs[i as int] {
                            assert(vs.take(i + 1)[i as int] == x);
                        } else {
                            let w = choose|w: int| 0 <= w < i && #[trigger] vs.take(i as int)[w] == x;
                            assert(vs.take(i + 1)[w] == x);
                        }
                    }
                }
                let ghost mids = m0.union(vs.take(i as int).to_set());
                assert(m0.union(vs.take(i + 1).to_set()) =~= mids.insert(vs[i as int]));
                if bytes_views(prev).contains(vs[i as int]) {
                    assert(members@ == prev);
                    assert(bytes_views(prev).to_set().contains(vs[i as int]));
                    assert(mids.contains(vs[i as int]));
                    assert(mids.insert(vs[i as int]) =~= mids);
                    assert(bytes_views(members@).to_set() =~= m0.union(vs.take(i + 1).to_set()));
                } else {
                    assert(bytes_views(members@).to_set() =~= m0.union(vs.take(i + 1).to_set()));
                }
            }
            i += 1;
        }
        proof {
            assert(vs.take(values@.len() as int) =~= vs);
        }
        let new_len = members.len();
        let ghost m1 = bytes_views(members@).to_set();
        proof {
            assert(m0.len() == start_len) by {
                assert(m0 =~= m0.union(vs.take(0).to_set()));
            }
            assert(m1.len() - m0.len() == members@.len() - start_len);
        }
        if new_len == 0 {
            proof {
                assert(lookup(self.entries_view(), k) is None);
                assert(self@ =~= old(self)@);
                assert(m1.len() == 0);
            }
            return Ok(0);
        }
        let grown = new_len - start_count;
        let r = sat_len_i64(grown);
        self.put(key, RedisValue::SetValue(members));
        Ok(r)
    }
}


impl KvStore {
    /// Removes and returns `min(count, size)` members of the set at `key`,
    /// never repeating a member within one call; removes the key if the
    /// set empties. Which members leave is unspecified.
    #[verifier::loop_isolation(false)]
    pub fn spop(&mut self, key: &bytes::Bytes, count: i64) -> (r: Result<
        Vec<bytes::Bytes>,
        DatabaseError,
    >)
        requires
            old(self).wf(),
            count >= 0,
        ensures
            final(self).wf(),
            ({
                let k = bytes_view(*key);
                if !old(self)@.contains_key(k) {
                    r matches Ok(v) && v@.len() == 0 && final(self)@ =~= old(self)@
                } else if !(old(self)@[k] is SetValue) {
                    r == Err::<Vec<bytes::Bytes>, DatabaseError>(DatabaseError::WrongType)
                        && final(self)@ =~= old(self)@
                } else {
                    let m0 = old(self)@[k]->SetValue_0;
                    let n = if count as int <= m0.len() {
                        count as int
                    } else {
                        m0.len() as int
                    };
                    &&& r matches Ok(v) && {
                        &&& v@.len() == n
                        &&& bytes_views(v@).no_duplicates()
                        &&& forall|t: int|
                            0 <= t < v@.len() ==> m0.contains(bytes_view(#[trigger] v@[t]))
                        &&& if n == m0.len() {
                            final(self)@ =~= old(self)@.remove(k)
                        } else {
                            final(self)@ =~= old(self)@.insert(
                                k,
                                ValModel::SetValue(
                                    m0.difference(bytes_views(v@).to_set()),
                                ),
                            )
                        }
                    }
                }
            }),
    {
        let ghost k = bytes_view(*key);
        match self.find(key) {
            Some(i) => {
                let is_set = match &self.entries[i].1 {
                    RedisValue::SetValue(_) => true,
                    _ => false,
                };
                if !is_set {
                    return Err(DatabaseError::WrongType);
                }
                let e = self.take_at(i);
                proof {
                    assert(!self@.contains_key(k));
                    assert(lookup(self.entries_view(), k) is None);
                }
                match e.1 {
                    RedisValue::SetValue(mut members) => {
                        let ghost rv0 = bytes_views(members@);
                        let ghost m0 = rv0.to_set();
                        proof {
                            rv0.unique_seq_to_set();
                        }
                        let len = members.len();
                        let take_n: usize = if (count as u64) <= (len as u64) {
                            count as usize
                        } else {
                            len
                        };
                        let mut popped: Vec<bytes::Bytes> = Vec::new();
                        let mut j: usize = 0;
                        while j < take_n
                            invariant
                                0 <= j <= take_n <= rv0.len(),
                                members@.len() == rv0.len() - j,
                                bytes_views(members@) == rv0.take(rv0.len() - j),
                                popped@.len() == j,
                                forall|t: int|
                                    0 <= t < j ==> bytes_view(#[trigger] popped@[t]) == rv0[rv0.len() - 1 - t],
                            decreases take_n - j,
                        {
                            let ghost prev_m = members@;
                            let ghost prev_p = popped@;
                            match members.pop() {
                                Some(x) => {
                                    proof {
                                        assert(x == prev_m[prev_m.len() - 1]);
                                        assert(bytes_view(x) == bytes_views(prev_m)[prev_m.len()
                                            - 1]);
                                        assert(bytes_view(x) == rv0[rv0.len() - 1 - j]);
                                        assert(bytes_views(members@) =~= bytes_views(
                                            prev_m,
                                        ).drop_last());
                                        assert(rv0.take(rv0.len() - j).drop_last() =~= rv0.take(
                                            rv0.len() - j - 1,
                                        ));
                                    }
                                    popped.push(x);
                                },
                                None => {
                                    proof {
                                        assert(false);
                                    }
                                },
                            }
                            j += 1;
                        }
                        proof {
                            assert forall|p: int, q: int|
                                (0 <= p < bytes_views(popped@).len() && 0 <= q < bytes_views(
                                    popped@,
                                ).len() && p != q) implies bytes_views(popped@)[p] != bytes_views(
                                popped@,
                            )[q] by {
                                assert(bytes_views(popped@)[p] == rv0[rv0.len() - 1 - p]);
                                assert(bytes_views(popped@)[q] == rv0[rv0.len() - 1 - q]);
                            }
                            assert forall|t: int|
                                0 <= t < popped@.len() implies m0.contains(
                                bytes_view(#[trigger] popped@[t]),
                            ) by {
                                assert(bytes_view(popped@[t]) == rv0[rv0.len() - 1 - t]);
                                assert(rv0.contains(rv0[rv0.len() - 1 - t]));
                            }
                        }
                        if members.len() == 0 {
                            proof {
                                assert(take_n == rv0.len());
                            }
                            Ok(popped)
                        } else {
                            let ghost rem = bytes_views(members@);
                            proof {
                                assert(rem =~= rv0.take(rv0.len() - take_n));
                                assert forall|p: int, q: int|
                                    (0 <= p < rem.len() && 0 <= q < rem.len() && p
                                        != q) implies rem[p] != rem[q] by {
                                    assert(rem[p] == rv0[p]);
                                    assert(rem[q] == rv0[q]);
                                }
                                assert(rem.to_set() =~= m0.difference(
                                    bytes_views(popped@).to_set(),
                                )) by {
                                    assert forall|x: Seq<u8>|
                                        rem.contains(x) implies m0.contains(x) && !bytes_views(
                                        popped@,
                                    ).contains(x) by {
                                        let w = choose|w: int|
                                            0 <= w < rem.len() && #[trigger] rem[w] == x;
                                        assert(rv0[w] == x);
                                        assert(rv0.contains(x));
                                        if bytes_views(popped@).contains(x) {
                                            let u = choose|u: int|
                                                0 <= u < popped@.len()
                                                    && #[trigger] bytes_views(popped@)[u] == x;
                                            assert(rv0[rv0.len() - 1 - u] == x);
                                            assert(rv0.len() - 1 - u >= rem.len());
                                            assert(false);
                                        }
                                    }
                                    assert forall|x: Seq<u8>|
                                        m0.contains(x) && !bytes_views(popped@).contains(
                                            x,
                                        ) implies rem.contains(x) by {
                                        let w = choose|w: int|
                                            0 <= w < rv0.len() && #[trigger] rv0[w] == x;
                                        if w >= rem.len() {
                                            let u = rv0.len() - 1 - w;
                                            assert(bytes_views(popped@)[u] == rv0[w]);
                                            assert(bytes_views(popped@).contains(x));
                                            assert(false);
                                        }
                                        assert(rem[w] == x);
                                    }
                                }
                                rem.unique_seq_to_set();
                            }
                            self.put(e.0, RedisValue::SetValue(members));
                            Ok(popped)
                        }
                    },
                    _ => {
                        proof {
                            assert(false);
                        }
                        Err(DatabaseError::WrongType)
                    },
                }
            },
            None => {
                let empty: Vec<bytes::Bytes> = Vec::new();
                Ok(empty)
            },
        }
    }

    /// Reads every member of the set at `key`, each exactly once, in
    /// unspecified order; a missing key reads as the empty set.
    pub fn smembers(&self, key: &bytes::Bytes) -> (r: Result<Vec<bytes::Bytes>, DatabaseError>)
        requires
            self.wf(),
        ensures
            ({
                let k = bytes_view(*key);
                if !self@.contains_key(k) {
                    r matches Ok(v) && v@.len() == 0
                } else if !(self@[k] is SetValue) {
                    r == Err::<Vec<bytes::Bytes>, DatabaseError>(DatabaseError::WrongType)
                } else {
                    let m0 = self@[k]->SetValue_0;
                    r matches Ok(v) && bytes_views(v@).no_duplicates() && bytes_views(
                        v@,
                    ).to_set() =~= m0 && v@.len() == m0.len()
                }
            }),
    {
        let ghost k = bytes_view(*key);
        match self.find(key) {
            Some(i) => {
                match &self.entries[i].1 {
                    RedisValue::SetValue(_) => {
                        let copy = self.entries[i].1.duplicate();
                        match copy {
                            RedisValue::SetValue(v) => {
                                proof {
                                    bytes_views(v@).unique_seq_to_set();
                                }
                                Ok(v)
                            },
                            _ => {
                                proof {
                                    assert(false);
                                }
                                Err(DatabaseError::WrongType)
                            },
                        }
                    },
                    _ => Err(DatabaseError::WrongType),
                }
            },
            None => {
                let empty: Vec<bytes::Bytes> = Vec::new();
                Ok(empty)
            },
        }
    }
}


/// After `set K V`, a `get K` sees exactly `V`, and keeps seeing it under
/// operations on other keys, until `K` itself is overwritten or deleted.
pub proof fn lemma_set_then_get(db: Map<Seq<u8>, ValModel>, k: Seq<u8>, v: Seq<u8>)
    ensures
        db.insert(k, ValModel::Str(v)).contains_key(k),
        db.insert(k, ValModel::Str(v))[k] == ValModel::Str(v),
        forall|k2: Seq<u8>, w: ValModel|
            k2 != k ==> #[trigger] db.insert(k, ValModel::Str(v)).insert(k2, w)[k]
                == ValModel::Str(v),
        forall|k2: Seq<u8>|
            k2 != k ==> #[trigger] db.insert(k, ValModel::Str(v)).remove(k2)[k] == ValModel::Str(
                v,
            ),
{
}

/// A range of `0` to `-1` selects a whole list, so reading it back yields
/// the list in order, whatever pushes built it.
pub proof fn lemma_lrange_full(l: Seq<Seq<u8>>)
    ensures
        spec_range(0, -1, l.len() as int) == (0int, l.len() as int),
        l.subrange(0, l.len() as int) == l,
{
    assert(l.subrange(0, l.len() as int) =~= l);
}

pub open spec fn clamp_i(x: int, lo: int, hi: int) -> int {
    if x < lo {
        lo
    } else if x > hi {
        hi
    } else {
        x
    }
}

/// The selected slice has length `max(0, clamp(stop) - clamp(start) + 1)`,
/// with `start` clamped to `[0, len]` and `stop` to `[0, len - 1]`.
pub proof fn lemma_lrange_len(start: int, stop: int, len: int)
    requires
        len >= 1,
    ensures
        ({
            let s0 = if start < 0 {
                len + start
            } else {
                start
            };
            let e0 = if stop < 0 {
                len + stop
            } else {
                stop
            };
            let sc = clamp_i(s0, 0, len);
            let ec = clamp_i(e0, 0, len - 1);
            let expect = if ec - sc + 1 > 0 {
                ec - sc + 1
            } else {
                0
            };
            spec_range(start, stop, len).1 - spec_range(start, stop, len).0 == expect
        }),
{
}

/// Popping at least as many elements as the list holds removes the key;
/// a later `get` of it yields nothing.
pub proof fn lemma_pop_all_removes(db: Map<Seq<u8>, ValModel>, k: Seq<u8>)
    ensures
        !db.remove(k).contains_key(k),
{
}

} // verus!
