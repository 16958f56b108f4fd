//! The total order on stored lines.
//!
//! A stored line is modelled as a triple `(key, text, seq)`: the sort key as
//! a 64-bit pattern whose unsigned order is the key order, the raw text
//! bytes, and the arrival number.  Triples are ordered lexicographically:
//! by key, then by text (byte-lexicographic, which on UTF-8 text is the
//! usual string order), then by arrival number.  Since arrival numbers are
//! unique, this orders any two distinct stored lines.

use vstd::prelude::*;

verus! {

/// Byte-lexicographic strict order: `a` comes before `b` when `a` is a
/// proper prefix of `b`, or the first differing byte of `a` is smaller.
pub open spec fn bytes_lt(a: Seq<u8>, b: Seq<u8>) -> bool
    decreases a.len(),
{
    if b.len() == 0 {
        false
    } else if a.len() == 0 {
        true
    } else {
        a[0] < b[0] || (a[0] == b[0] && bytes_lt(a.drop_first(), b.drop_first()))
    }
}

/// Strict order on stored lines: by key, then text, then arrival number.
pub open spec fn rec_lt(a: (u64, Seq<u8>, u64), b: (u64, Seq<u8>, u64)) -> bool {
    ||| a.0 < b.0
    ||| (a.0 == b.0 && bytes_lt(a.1, b.1))
    ||| (a.0 == b.0 && a.1 == b.1 && a.2 < b.2)
}

/// Component-wise equality of stored lines.
pub open spec fn rec_eq(a: (u64, Seq<u8>, u64), b: (u64, Seq<u8>, u64)) -> bool {
    a.0 == b.0 && a.1 == b.1 && a.2 == b.2
}

/// Non-strict order on stored lines.
pub open spec fn rec_le(a: (u64, Seq<u8>, u64), b: (u64, Seq<u8>, u64)) -> bool {
    rec_lt(a, b) || rec_eq(a, b)
}

/// No byte sequence comes before itself.
pub proof fn lemma_bytes_lt_irrefl(a: Seq<u8>)
    ensures
        !bytes_lt(a, a),
    decreases a.len(),
{
    if a.len() > 0 {
        lemma_bytes_lt_irrefl(a.drop_first());
    }
}

/// The byte order is asymmetric.
pub proof fn lemma_bytes_lt_asym(a: Seq<u8>, b: Seq<u8>)
    requires
        bytes_lt(a, b),
    ensures
        !bytes_lt(b, a),
        a != b,
    decreases a.len(),
{
    if a.len() > 0 && b.len() > 0 && a[0] == b[0] {
        lemma_bytes_lt_asym(a.drop_first(), b.drop_first());
        if a == b {
            assert(a.drop_first() =~= b.drop_first());
        }
    } else {
        if a == b {
            lemma_bytes_lt_irrefl(a);
        }
    }
}

/// Any two byte sequences are ordered or equal.
pub proof fn lemma_bytes_trichotomy(a: Seq<u8>, b: Seq<u8>)
    ensures
        bytes_lt(a, b) || bytes_lt(b, a) || a == b,
    decreases a.len(),
{
    if a.len() == 0 && b.len() == 0 {
        assert(a =~= b);
    } else if a.len() > 0 && b.len() > 0 && a[0] == b[0] {
        lemma_bytes_trichotomy(a.drop_first(), b.drop_first());
        if a.drop_first() == b.drop_first() {
            assert(a.len() == b.len());
            assert forall|k: int| 0 <= k < a.len() implies a[k] == b[k] by {
                if k > 0 {
                    assert(a.drop_first()[k - 1] == b.drop_first()[k - 1]);
                    assert(a.drop_first()[k - 1] == a[k]);
                    assert(b.drop_first()[k - 1] == b[k]);
                }
            }
            assert(a =~= b);
        }
    }
}

/// The byte order is transitive.
pub proof fn lemma_bytes_lt_trans(a: Seq<u8>, b: Seq<u8>, c: Seq<u8>)
    requires
        bytes_lt(a, b),
        bytes_lt(b, c),
    ensures
        bytes_lt(a, c),
    decreases a.len(),
{
    if a.len() > 0 && b.len() > 0 && c.len() > 0 && a[0] == b[0] && b[0] == c[0] {
        lemma_bytes_lt_trans(a.drop_first(), b.drop_first(), c.drop_first());
    }
}

/// If the first `i` bytes agree, position `i` decides the byte order.
pub proof fn lemma_bytes_cmp_at(a: Seq<u8>, b: Seq<u8>, i: int)
    requires
        0 <= i <= a.len(),
        i <= b.len(),
        forall|k: int| 0 <= k < i ==> a[k] == b[k],
    ensures
        i < a.len() && i < b.len() && a[i] < b[i] ==> bytes_lt(a, b),
        i < a.len() && i < b.len() && a[i] > b[i] ==> bytes_lt(b, a),
        i == a.len() && i < b.len() ==> bytes_lt(a, b),
        i == b.len() && i < a.len() ==> bytes_lt(b, a),
        i == a.len() && i == b.len() ==> a == b,
    decreases i,
{
    if i == 0 {
        if a.len() == 0 && b.len() == 0 {
            assert(a =~= b);
        }
    } else {
        let a1 = a.drop_first();
        let b1 = b.drop_first();
        assert(forall|k: int| 0 <= k < i - 1 ==> a1[k] == b1[k]);
        lemma_bytes_cmp_at(a1, b1, i - 1);
        if i == a.len() && i == b.len() {
            assert(a =~= b);
        }
    }
}

/// Any two stored lines are ordered or component-wise equal.
pub proof fn lemma_rec_trichotomy(a: (u64, Seq<u8>, u64), b: (u64, Seq<u8>, u64))
    ensures
        rec_lt(a, b) || rec_lt(b, a) || rec_eq(a, b),
{
    if a.0 == b.0 {
        lemma_bytes_trichotomy(a.1, b.1);
    }
}

/// The strict order on stored lines is transitive.
pub proof fn lemma_rec_lt_trans(a: (u64, Seq<u8>, u64), b: (u64, Seq<u8>, u64), c: (u64, Seq<u8>, u64))
    requires
        rec_lt(a, b),
        rec_lt(b, c),
    ensures
        rec_lt(a, c),
{
    if a.0 == b.0 && b.0 == c.0 && bytes_lt(a.1, b.1) && bytes_lt(b.1, c.1) {
        lemma_bytes_lt_trans(a.1, b.1, c.1);
    }
}

/// A strict step followed by a non-strict one is strict.
pub proof fn lemma_rec_lt_le_trans(a: (u64, Seq<u8>, u64), b: (u64, Seq<u8>, u64), c: (u64, Seq<u8>, u64))
    requires
        rec_lt(a, b),
        rec_le(b, c),
    ensures
        rec_lt(a, c),
{
    if rec_lt(b, c) {
        lemma_rec_lt_trans(a, b, c);
    }
}

/// Result of an executable three-way comparison.
pub enum Cmp {
    Lt,
    Eq,
    Gt,
}

/// Three-way byte-lexicographic comparison of two byte vectors.
pub fn cmp_bytes(a: &Vec<u8>, b: &Vec<u8>) -> (r: Cmp)
    ensures
        (r == Cmp::Lt) == bytes_lt(a@, b@),
        (r == Cmp::Gt) == bytes_lt(b@, a@),
        (r == Cmp::Eq) == (a@ == b@),
{
    let mut i: usize = 0;
    while i < a.len() && i < b.len()
        invariant
            i <= a@.len(),
            i <= b@.len(),
            forall|k: int| 0 <= k < i ==> a@[k] == b@[k],
        decreases a@.len() - i,
    {
        if a[i] < b[i] {
            proof {
                lemma_bytes_cmp_at(a@, b@, i as int);
                lemma_bytes_lt_asym(a@, b@);
            }
            return Cmp::Lt;
        }
        if a[i] > b[i] {
            proof {
                lemma_bytes_cmp_at(a@, b@, i as int);
                lemma_bytes_lt_asym(b@, a@);
            }
            return Cmp::Gt;
        }
        i = i + 1;
    }
    proof {
        lemma_bytes_cmp_at(a@, b@, i as int);
        if a@.len() < b@.len() {
            lemma_bytes_lt_asym(a@, b@);
        } else if b@.len() < a@.len() {
            lemma_bytes_lt_asym(b@, a@);
        } else {
            lemma_bytes_lt_irrefl(a@);
        }
    }
    if a.len() < b.len() {
        Cmp::Lt
    } else if b.len() < a.len() {
        Cmp::Gt
    } else {
        Cmp::Eq
    }
}

} // verus!
