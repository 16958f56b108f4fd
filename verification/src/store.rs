//! The ordered store: an append-only collection of stored lines kept sorted
//! by `(key, text, seq)`, with the bounded `take` used for previews and for
//! the final output.

use vstd::prelude::*;

use crate::order::Cmp;
use crate::order::cmp_bytes;
use crate::order::lemma_rec_lt_le_trans;
use crate::order::lemma_rec_trichotomy;
use crate::order::rec_le;
use crate::order::rec_lt;

verus! {

/// One stored line: the sort key as a 64-bit total-order pattern, the raw
/// text bytes (with their trailing newline), and the arrival number.
pub struct Record {
    pub key: u64,
    pub text: Vec<u8>,
    pub seq: u64,
}

impl View for Record {
    type V = (u64, Seq<u8>, u64);

    open spec fn view(&self) -> (u64, Seq<u8>, u64) {
        (self.key, self.text@, self.seq)
    }
}

/// `rec_lt` decided executably.
pub fn record_lt(a: &Record, b: &Record) -> (r: bool)
    ensures
        r == rec_lt(a@, b@),
{
    if a.key < b.key {
        true
    } else if b.key < a.key {
        false
    } else {
        match cmp_bytes(&a.text, &b.text) {
            Cmp::Lt => true,
            Cmp::Gt => false,
            Cmp::Eq => a.seq < b.seq,
        }
    }
}

/// Every pair of stored lines stands in order.
pub open spec fn sorted(s: Seq<(u64, Seq<u8>, u64)>) -> bool {
    forall|i: int, j: int| 0 <= i < j < s.len() ==> rec_le(s[i], s[j])
}

/// The sorted collection of all lines ingested so far.
pub struct OrderedStore {
    records: Vec<Record>,
}

impl View for OrderedStore {
    type V = Seq<(u64, Seq<u8>, u64)>;

    closed spec fn view(&self) -> Seq<(u64, Seq<u8>, u64)> {
        self.records@.map_values(|r: Record| r@)
    }
}

impl OrderedStore {
    /// The ordering invariant: iteration order is sorted by key, then text,
    /// then arrival number.
    pub open spec fn wf(self) -> bool {
        sorted(self@)
    }

    /// An empty store.
    pub fn new() -> (s: Self)
        ensures
            s@ == Seq::<(u64, Seq<u8>, u64)>::empty(),
            s.wf(),
    {
        let s = OrderedStore { records: Vec::new() };
        proof {
            assert(s@ =~= Seq::<(u64, Seq<u8>, u64)>::empty());
        }
        s
    }

    /// Number of stored lines.
    pub fn len(&self) -> (n: usize)
        ensures
            n == self@.len(),
    {
        self.records.len()
    }

    /// Inserts one line, keeping the order; nothing is merged or dropped,
    /// so the contents grow by exactly this record.
    pub fn insert(&mut self, rec: Record)
        requires
            old(self).wf(),
        ensures
            final(self).wf(),
            final(self)@.to_multiset() == old(self)@.to_multiset().insert(rec@),
            final(self)@.len() == old(self)@.len() + 1,
    {
        let ghost orig = self@;
        let ghost orig_records = self.records@;
        let mut i: usize = 0;
        while i < self.records.len() && !record_lt(&rec, &self.records[i])
            invariant
                i <= self.records@.len(),
                self.records@ == orig_records,
                self@ == orig,
                forall|k: int| 0 <= k < i ==> !rec_lt(rec@, orig[k]),
            decreases self.records@.len() - i,
        {
            proof {
                assert(orig[i as int] == self.records@[i as int]@);
            }
            i = i + 1;
        }
        proof {
            assert(i < orig.len() ==> rec_lt(rec@, orig[i as int]));
        }
        self.records.insert(i, rec);
        proof {
            let nv = orig.insert(i as int, rec@);
            orig_records.insert_ensures(i as int, rec);
            orig.insert_ensures(i as int, rec@);
            assert forall|k: int| 0 <= k < nv.len() implies self@[k] == nv[k] by {
                assert(self@[k] == self.records@[k]@);
            }
            assert(self@ =~= nv);
            assert forall|a: int, b: int| 0 <= a < b < nv.len() implies rec_le(nv[a], nv[b]) by {
                let ii = i as int;
                if b < ii {
                    assert(rec_le(orig[a], orig[b]));
                } else if a < ii && b == ii {
                    lemma_rec_trichotomy(rec@, orig[a]);
                } else if a == ii {
                    assert(nv[b] == orig[b - 1]);
                    assert(rec_lt(rec@, orig[ii]));
                    if b - 1 > ii {
                        assert(rec_le(orig[ii], orig[b - 1]));
                    }
                    lemma_rec_lt_le_trans(rec@, orig[ii], orig[b - 1]);
                } else if a < ii && b > ii {
                    assert(nv[a] == orig[a] && nv[b] == orig[b - 1]);
                    assert(rec_le(orig[a], orig[b - 1]));
                } else {
                    assert(nv[a] == orig[a - 1] && nv[b] == orig[b - 1]);
                    assert(rec_le(orig[a - 1], orig[b - 1]));
                }
            }
            assert(sorted(nv));
            broadcast use vstd::seq_lib::group_to_multiset_ensures;
            vstd::seq_lib::lemma_multiset_commutative(orig.subrange(0, i as int).push(rec@), orig.subrange(i as int, orig.len() as int));
            vstd::seq_lib::lemma_multiset_commutative(orig.subrange(0, i as int), orig.subrange(i as int, orig.len() as int));
            assert(orig =~= orig.subrange(0, i as int) + orig.subrange(i as int, orig.len() as int));
            assert(nv.to_multiset() =~= orig.to_multiset().insert(rec@));
        }
    }

    /// The stored line at index `i`, as plain values.
    pub fn get(&self, i: usize) -> (r: (u64, &Vec<u8>, u64))
        requires
            i < self@.len(),
        ensures
            (r.0, r.1@, r.2) == self@[i as int],
    {
        let rec = &self.records[i];
        (rec.key, &rec.text, rec.seq)
    }
}

/// Concatenation of the stored lines' text, in sequence order.
pub open spec fn concat_texts(s: Seq<(u64, Seq<u8>, u64)>) -> Seq<u8>
    decreases s.len(),
{
    if s.len() == 0 {
        Seq::empty()
    } else {
        s[0].1 + concat_texts(s.drop_first())
    }
}

/// Appending one line appends its text to the concatenation.
pub proof fn lemma_concat_push(s: Seq<(u64, Seq<u8>, u64)>, x: (u64, Seq<u8>, u64))
    ensures
        concat_texts(s.push(x)) == concat_texts(s) + x.1,
    decreases s.len(),
{
    if s.len() == 0 {
        assert(s.push(x).drop_first() =~= s);
        assert(s.push(x)[0] == x);
        assert(concat_texts(s.push(x)) =~= concat_texts(s) + x.1);
    } else {
        assert(s.push(x).drop_first() =~= s.drop_first().push(x));
        lemma_concat_push(s.drop_first(), x);
        assert(s.push(x)[0] == s[0]);
        assert(s[0].1 + (concat_texts(s.drop_first()) + x.1) =~= (s[0].1 + concat_texts(s.drop_first())) + x.1);
    }
}

/// The lines a bounded view shows: the first `num` in store order, or with
/// `reverse` the last `num` in reverse store order.
pub open spec fn taken(s: Seq<(u64, Seq<u8>, u64)>, num: int, reverse: bool) -> Seq<(u64, Seq<u8>, u64)> {
    let k = if num <= s.len() {
        num
    } else {
        s.len() as int
    };
    if reverse {
        Seq::new(k as nat, |i: int| s[s.len() - 1 - i])
    } else {
        s.subrange(0, k)
    }
}

/// The text shown by a bounded view of the store: the first `num` lines'
/// text in store order, or with `reverse` the last `num` lines' text in
/// reverse store order, concatenated.
pub fn take(store: &OrderedStore, num: usize, reverse: bool) -> (r: Vec<u8>)
    ensures
        r@ == concat_texts(taken(store@, num as int, reverse)),
{
    let n = store.len();
    let k = if num < n {
        num
    } else {
        n
    };
    let ghost t = taken(store@, num as int, reverse);
    proof {
        assert(t.len() == k);
    }
    let mut out: Vec<u8> = Vec::new();
    let mut i: usize = 0;
    proof {
        assert(t.subrange(0, 0) =~= Seq::<(u64, Seq<u8>, u64)>::empty());
    }
    while i < k
        invariant
            i <= k,
            k <= n,
            n == store@.len(),
            t == taken(store@, num as int, reverse),
            t.len() == k,
            out@ == concat_texts(t.subrange(0, i as int)),
        decreases k - i,
    {
        let idx = if reverse {
            n - 1 - i
        } else {
            i
        };
        proof {
            assert(t.subrange(0, i + 1) =~= t.subrange(0, i as int).push(t[i as int]));
            lemma_concat_push(t.subrange(0, i as int), t[i as int]);
            assert(t[i as int] == store@[idx as int]);
        }
        let line = store.get(idx);
        push_bytes(&mut out, line.1);
        i = i + 1;
    }
    proof {
        assert(t.subrange(0, k as int) =~= t);
    }
    out
}

/// Appends the bytes of `t` to `out`.
fn push_bytes(out: &mut Vec<u8>, t: &Vec<u8>)
    ensures
        final(out)@ == old(out)@ + t@,
{
    let mut j: usize = 0;
    proof {
        assert(old(out)@ + t@.subrange(0, 0) =~= old(out)@);
    }
    while j < t.len()
        invariant
            j <= t@.len(),
            out@ == old(out)@ + t@.subrange(0, j as int),
        decreases t@.len() - j,
    {
        out.push(t[j]);
        proof {
            assert(old(out)@ + t@.subrange(0, j + 1) =~= (old(out)@ + t@.subrange(0, j as int)).push(t@[j as int]));
        }
        j = j + 1;
    }
    proof {
        assert(t@.subrange(0, t@.len() as int) =~= t@);
    }
}

} // verus!
