//! The ingestion and render state machine.
//!
//! A `Sorter` holds the ordered store, the arrival counter, the dirty flag
//! and the display configuration.  The surrounding program feeds it one
//! event at a time — a line arrived, a render tick fired — and performs the
//! input, timer and terminal work itself; every decision about what is
//! stored, when a preview frame is emitted and what it holds is made, and
//! proved, here.

use vstd::prelude::*;

use crate::order::lemma_bytes_lt_irrefl;
use crate::order::rec_le;
use crate::screen::lemma_newline_count_add;
use crate::screen::newline_count;
use crate::store::OrderedStore;
use crate::store::Record;
use crate::store::concat_texts;
use crate::store::take;
use crate::store::taken;

verus! {

/// The four-byte truncation marker, `...` and a newline.
pub open spec fn marker() -> Seq<u8> {
    seq![46u8, 46u8, 46u8, 10u8]
}

/// The text of a preview frame for store contents `s`: a bounded view of
/// `limit` lines, with the truncation marker appended exactly when the
/// store holds more lines than the view shows.
pub open spec fn frame_spec(s: Seq<(u64, Seq<u8>, u64)>, limit: int, reverse: bool) -> Seq<u8> {
    if s.len() > limit {
        concat_texts(taken(s, limit, reverse)) + marker()
    } else {
        concat_texts(taken(s, limit, reverse))
    }
}

/// The full, untruncated output for store contents `s`: every line's text,
/// in store order, or in reverse store order when `reverse` is set.
pub open spec fn output_spec(s: Seq<(u64, Seq<u8>, u64)>, reverse: bool) -> Seq<u8> {
    concat_texts(taken(s, s.len() as int, reverse))
}

/// The streaming sorter: ordered store, arrival counter, dirty flag and
/// display configuration.
pub struct Sorter {
    store: OrderedStore,
    next_seq: u64,
    dirty: bool,
    limit: usize,
    reverse: bool,
    history: Ghost<Seq<(u64, Seq<u8>, u64)>>,
}

impl View for Sorter {
    type V = Seq<(u64, Seq<u8>, u64)>;

    closed spec fn view(&self) -> Seq<(u64, Seq<u8>, u64)> {
        self.store@
    }
}

impl Sorter {
    /// Every line ingested so far, as `(key, text, seq)`, in arrival order.
    pub closed spec fn ingested(self) -> Seq<(u64, Seq<u8>, u64)> {
        self.history@
    }

    /// Whether an insert happened since the last emitted frame.
    pub closed spec fn is_dirty(self) -> bool {
        self.dirty
    }

    /// The display limit this sorter was configured with.
    pub closed spec fn limit_spec(self) -> usize {
        self.limit
    }

    /// The reverse flag this sorter was configured with.
    pub closed spec fn reverse_spec(self) -> bool {
        self.reverse
    }

    /// The arrival number the next line will get.
    pub closed spec fn next_seq_spec(self) -> u64 {
        self.next_seq
    }

    /// Well-formedness: the store is sorted; it holds exactly the multiset
    /// of ingested lines; arrival numbers were handed out in order,
    /// starting at 1.
    pub closed spec fn wf(self) -> bool {
        &&& self.store.wf()
        &&& self.store@.to_multiset() == self.history@.to_multiset()
        &&& self.history@.len() + 1 == self.next_seq
        &&& forall|i: int| 0 <= i < self.history@.len() ==> #[trigger] self.history@[i].2 == i + 1
    }

    /// A fresh sorter: empty, clean, counting arrivals from 1.
    pub fn new(limit: usize, reverse: bool) -> (s: Sorter)
        ensures
            s.wf(),
            s@ == Seq::<(u64, Seq<u8>, u64)>::empty(),
            s.ingested() == Seq::<(u64, Seq<u8>, u64)>::empty(),
            !s.is_dirty(),
            s.limit_spec() == limit,
            s.reverse_spec() == reverse,
            s.next_seq_spec() == 1,
    {
        Sorter {
            store: OrderedStore::new(),
            next_seq: 1,
            dirty: false,
            limit,
            reverse,
            history: Ghost(Seq::empty()),
        }
    }

    /// Number of lines ingested so far.
    pub fn len(&self) -> (n: usize)
        ensures
            n == self@.len(),
    {
        self.store.len()
    }

    /// Whether another line can still get an arrival number.
    pub fn can_ingest(&self) -> (r: bool)
        ensures
            r == (self.next_seq_spec() < u64::MAX),
    {
        self.next_seq < u64::MAX
    }

    /// Ingests one line: it gets the next arrival number, is stored under
    /// the given key, and the sorter becomes dirty.  Every line yields
    /// exactly one stored record, duplicates included.
    pub fn on_line(&mut self, key: u64, text: Vec<u8>)
        requires
            old(self).wf(),
            old(self).next_seq_spec() < u64::MAX,
        ensures
            final(self).wf(),
            final(self).ingested() == old(self).ingested().push(
                (key, text@, old(self).next_seq_spec()),
            ),
            final(self)@.to_multiset() == old(self)@.to_multiset().insert(
                (key, text@, old(self).next_seq_spec()),
            ),
            final(self).is_dirty(),
            final(self).limit_spec() == old(self).limit_spec(),
            final(self).reverse_spec() == old(self).reverse_spec(),
            final(self).next_seq_spec() == old(self).next_seq_spec() + 1,
    {
        let s = self.next_seq;
        let ghost rv = (key, text@, s);
        let rec = Record { key, text, seq: s };
        self.store.insert(rec);
        self.next_seq = s + 1;
        self.dirty = true;
        let ghost hist = self.history@;
        self.history = Ghost(hist.push(rv));
        proof {
            broadcast use vstd::seq_lib::group_to_multiset_ensures;
            assert(self.history@.to_multiset() =~= hist.to_multiset().insert(rv));
        }
    }

    /// One render tick: a frame is emitted exactly when the sorter is
    /// dirty, and it shows the bounded view of the current order with the
    /// truncation marker exactly when lines were left out; afterwards the
    /// sorter is clean.  Nothing else changes.
    pub fn on_tick(&mut self) -> (r: Option<Vec<u8>>)
        requires
            old(self).wf(),
        ensures
            final(self).wf(),
            tick_rel(
                *old(self),
                *final(self),
                (match r {
                    Some(f) => Some(f@),
                    None => None,
                }),
            ),
            r matches Some(f) ==> f@ == frame_spec(
                old(self)@,
                old(self).limit_spec() as int,
                old(self).reverse_spec(),
            ),
    {
        if self.dirty {
            self.dirty = false;
            let mut f = take(&self.store, self.limit, self.reverse);
            if self.store.len() > self.limit {
                f.push(46);
                f.push(46);
                f.push(46);
                f.push(10);
                proof {
                    assert(f@ =~= concat_texts(
                        taken(self.store@, self.limit as int, self.reverse),
                    ) + marker());
                }
            }
            Some(f)
        } else {
            None
        }
    }

    /// The authoritative final output: every ingested line's text, in the
    /// configured order, untruncated.
    pub fn full_output(&self) -> (r: Vec<u8>)
        ensures
            r@ == output_spec(self@, self.reverse_spec()),
    {
        take(&self.store, self.store.len(), self.reverse)
    }
}

/// How one render tick relates the sorter before it, the sorter after it,
/// and the emitted frame: the contents, configuration and counter stand
/// still, the dirty flag is cleared, a frame comes exactly from a dirty
/// sorter, and its text is the bounded view of the contents.
pub open spec fn tick_rel(pre: Sorter, post: Sorter, frame: Option<Seq<u8>>) -> bool {
    &&& post@ == pre@
    &&& post.ingested() == pre.ingested()
    &&& post.limit_spec() == pre.limit_spec()
    &&& post.reverse_spec() == pre.reverse_spec()
    &&& post.next_seq_spec() == pre.next_seq_spec()
    &&& !post.is_dirty()
    &&& frame.is_some() == pre.is_dirty()
    &&& (frame matches Some(f) ==> f == frame_spec(pre@, pre.limit_spec() as int, pre.reverse_spec()))
}

/// Ordering invariant: iterating a well-formed sorter's contents forward
/// yields non-decreasing keys, and lines with equal key and equal text
/// appear in arrival order.
pub proof fn lemma_ordering_invariant(s: Sorter, i: int, j: int)
    requires
        s.wf(),
        0 <= i < j < s@.len(),
    ensures
        s@[i].0 <= s@[j].0,
        s@[i].0 == s@[j].0 && s@[i].1 == s@[j].1 ==> s@[i].2 <= s@[j].2,
{
    assert(rec_le(s@[i], s@[j]));
    lemma_bytes_lt_irrefl(s@[i].1);
}

/// The texts of a collection of stored lines, in its order.
pub open spec fn texts_of(s: Seq<(u64, Seq<u8>, u64)>) -> Seq<Seq<u8>> {
    s.map_values(|r: (u64, Seq<u8>, u64)| r.1)
}

/// Two collections holding the same multiset of lines hold the same
/// multiset of texts.
pub proof fn lemma_texts_multiset(a: Seq<(u64, Seq<u8>, u64)>, b: Seq<(u64, Seq<u8>, u64)>)
    requires
        a.to_multiset() == b.to_multiset(),
    ensures
        texts_of(a).to_multiset() == texts_of(b).to_multiset(),
    decreases a.len(),
{
    broadcast use vstd::seq_lib::group_to_multiset_ensures;
    broadcast use vstd::multiset::group_multiset_axioms;

    if a.len() == 0 {
        assert(b.to_multiset().len() == 0);
        assert(b.len() == 0);
        assert(texts_of(a) =~= Seq::<Seq<u8>>::empty());
        assert(texts_of(b) =~= Seq::<Seq<u8>>::empty());
    } else {
        let x = a[0];
        assert(a.to_multiset().count(x) > 0) by {
            assert(a.contains(x));
        }
        assert(b.contains(x));
        let j = choose|j: int| 0 <= j < b.len() && b[j] == x;
        let a1 = a.remove(0);
        let b1 = b.remove(j);
        assert(a1.to_multiset() =~= a.to_multiset().remove(x));
        assert(b1.to_multiset() =~= b.to_multiset().remove(x));
        lemma_texts_multiset(a1, b1);
        a.remove_ensures(0);
        b.remove_ensures(j);
        texts_of(a).remove_ensures(0);
        texts_of(b).remove_ensures(j);
        assert(texts_of(a1) =~= texts_of(a).remove(0));
        assert(texts_of(b1) =~= texts_of(b).remove(j));
        assert(texts_of(a).remove(0).to_multiset() =~= texts_of(a).to_multiset().remove(
            texts_of(a)[0],
        ));
        assert(texts_of(b).remove(j).to_multiset() =~= texts_of(b).to_multiset().remove(
            texts_of(b)[j],
        ));
        assert(texts_of(a)[0] == x.1);
        assert(texts_of(b)[j] == x.1);
        assert(texts_of(a).to_multiset().count(x.1) > 0) by {
            assert(texts_of(a).contains(x.1));
        }
        assert(texts_of(b).to_multiset().count(x.1) > 0) by {
            assert(texts_of(b).contains(x.1));
        }
        let ma = texts_of(a).to_multiset();
        let mb = texts_of(b).to_multiset();
        assert(ma.remove(x.1) == mb.remove(x.1));
        assert forall|y: Seq<u8>| #[trigger] ma.count(y) == mb.count(y) by {
            assert(ma.remove(x.1).count(y) == mb.remove(x.1).count(y));
            if y == x.1 {
                assert(ma.remove(x.1).count(y) + 1 == ma.count(y));
                assert(mb.remove(x.1).count(y) + 1 == mb.count(y));
            } else {
                assert(ma.remove(x.1).count(y) == ma.count(y));
                assert(mb.remove(x.1).count(y) == mb.count(y));
            }
        }
        assert(texts_of(a).to_multiset() =~= texts_of(b).to_multiset());
    }
}

/// Completeness: a well-formed sorter stores exactly the multiset of the
/// lines it ingested — none lost, none duplicated, ties all kept — and so
/// also exactly the multiset of their texts.
pub proof fn lemma_completeness(s: Sorter)
    requires
        s.wf(),
    ensures
        s@.to_multiset() == s.ingested().to_multiset(),
        texts_of(s@).to_multiset() == texts_of(s.ingested()).to_multiset(),
{
    lemma_texts_multiset(s@, s.ingested());
}

/// Idempotent redraw: of two consecutive ticks with no insert between
/// them, the second emits no frame.
pub proof fn lemma_idempotent_redraw(
    s0: Sorter,
    s1: Sorter,
    s2: Sorter,
    f1: Option<Seq<u8>>,
    f2: Option<Seq<u8>>,
)
    requires
        tick_rel(s0, s1, f1),
        tick_rel(s1, s2, f2),
    ensures
        f2 == None::<Seq<u8>>,
{
}

/// Every line of `t` ends with exactly one newline, so the concatenation
/// holds one newline per line.
proof fn lemma_concat_newline_count(t: Seq<(u64, Seq<u8>, u64)>)
    requires
        forall|i: int| 0 <= i < t.len() ==> #[trigger] newline_count(t[i].1) == 1,
    ensures
        newline_count(concat_texts(t)) == t.len(),
    decreases t.len(),
{
    if t.len() > 0 {
        lemma_newline_count_add(t[0].1, concat_texts(t.drop_first()));
        assert(forall|i: int|
            0 <= i < t.drop_first().len() ==> #[trigger] newline_count(t.drop_first()[i].1)
                == 1);
        lemma_concat_newline_count(t.drop_first());
    }
}

/// Truncation correctness: when the store holds more lines than the limit,
/// a frame holds exactly `limit` lines of text plus the one-line marker;
/// otherwise it holds exactly the store's lines and no marker.  Stated
/// over newline counts, for lines that each carry one trailing newline.
pub proof fn lemma_truncation(s: Seq<(u64, Seq<u8>, u64)>, limit: int, reverse: bool)
    requires
        0 <= limit,
        forall|i: int| 0 <= i < s.len() ==> #[trigger] newline_count(s[i].1) == 1,
    ensures
        newline_count(frame_spec(s, limit, reverse)) == if s.len() > limit {
            limit + 1
        } else {
            s.len() as int
        },
{
    let t = taken(s, limit, reverse);
    assert forall|i: int| 0 <= i < t.len() implies #[trigger] newline_count(t[i].1) == 1 by {
        if reverse {
            assert(t[i] == s[s.len() - 1 - i]);
        } else {
            assert(t[i] == s[i]);
        }
    }
    lemma_concat_newline_count(t);
    if s.len() > limit {
        lemma_newline_count_add(concat_texts(t), marker());
        lemma_marker_newline_count();
    }
}

/// A one-byte sequence holds one newline exactly when its byte is one.
proof fn lemma_newline_count_single(b: u8)
    ensures
        newline_count(seq![b]) == if b == 10 {
            1int
        } else {
            0int
        },
{
    reveal_with_fuel(newline_count, 2);
    assert(seq![b].drop_first() =~= Seq::<u8>::empty());
}

/// The truncation marker is one line.
proof fn lemma_marker_newline_count()
    ensures
        newline_count(marker()) == 1,
{
    assert(marker() =~= seq![46u8] + seq![46u8] + seq![46u8] + seq![10u8]);
    lemma_newline_count_add(seq![46u8] + seq![46u8] + seq![46u8], seq![10u8]);
    lemma_newline_count_add(seq![46u8] + seq![46u8], seq![46u8]);
    lemma_newline_count_add(seq![46u8], seq![46u8]);
    lemma_newline_count_single(46u8);
    lemma_newline_count_single(10u8);
}

/// Reverse flag: the untruncated reverse view lists the store's lines in
/// exactly the reverse of the forward view's order.
pub proof fn lemma_reverse_output(s: Seq<(u64, Seq<u8>, u64)>)
    ensures
        taken(s, s.len() as int, true) == taken(s, s.len() as int, false).reverse(),
{
    assert(taken(s, s.len() as int, true) =~= taken(s, s.len() as int, false).reverse());
}

/// The untruncated forward view is the store's contents themselves, so the
/// forward final output concatenates every stored line's text in order.
pub proof fn lemma_full_forward(s: Seq<(u64, Seq<u8>, u64)>)
    ensures
        taken(s, s.len() as int, false) == s,
        output_spec(s, false) == concat_texts(s),
{
    assert(taken(s, s.len() as int, false) =~= s);
}

} // verus!
