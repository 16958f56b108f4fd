//! Decisions of the display sink's overwrite-in-place redraw protocol.
//!
//! The sink owns the terminal surface.  For each frame it must know whether
//! the previously drawn region has to be erased first (it has, once any
//! frame was drawn) and how many lines the frame holds, to move the cursor
//! back up afterwards; on shutdown one final erase is owed exactly when a
//! frame was ever drawn.  Those decisions are made here; the cursor and
//! erase primitives themselves live with the caller that owns the terminal.

use vstd::prelude::*;

verus! {

/// How many newline bytes `s` holds.
pub open spec fn newline_count(s: Seq<u8>) -> int
    decreases s.len(),
{
    if s.len() == 0 {
        0
    } else {
        (if s[0] == 10 {
            1int
        } else {
            0int
        }) + newline_count(s.drop_first())
    }
}

/// Newline counting distributes over concatenation.
pub proof fn lemma_newline_count_add(a: Seq<u8>, b: Seq<u8>)
    ensures
        newline_count(a + b) == newline_count(a) + newline_count(b),
    decreases a.len(),
{
    if a.len() == 0 {
        assert(a + b =~= b);
    } else {
        assert((a + b).drop_first() =~= a.drop_first() + b);
        lemma_newline_count_add(a.drop_first(), b);
        assert((a + b)[0] == a[0]);
    }
}

/// How many lines `s` holds when split at newlines: the number of newline
/// bytes, plus one for a final segment not ended by a newline.
pub open spec fn lines_of(s: Seq<u8>) -> int {
    if s.len() == 0 {
        0
    } else if s[s.len() - 1] == 10 {
        newline_count(s)
    } else {
        newline_count(s) + 1
    }
}

/// Counts the lines of a frame, as `lines_of` gives them.
pub fn count_lines(frame: &Vec<u8>) -> (r: usize)
    ensures
        r == lines_of(frame@),
{
    let n = frame.len();
    let mut nl: usize = 0;
    let mut j: usize = 0;
    proof {
        assert(frame@.subrange(0, 0) =~= Seq::<u8>::empty());
    }
    while j < n
        invariant
            j <= n,
            n == frame@.len(),
            nl <= j,
            nl == newline_count(frame@.subrange(0, j as int)),
        decreases n - j,
    {
        proof {
            let pre = frame@.subrange(0, j as int);
            let one = seq![frame@[j as int]];
            assert(frame@.subrange(0, j + 1) =~= pre + one);
            lemma_newline_count_add(pre, one);
            assert(newline_count(one) == if frame@[j as int] == 10 {
                1int
            } else {
                0int
            }) by {
                reveal_with_fuel(newline_count, 2);
                assert(one.drop_first() =~= Seq::<u8>::empty());
            }
        }
        if frame[j] == 10 {
            nl = nl + 1;
        }
        j = j + 1;
    }
    proof {
        assert(frame@.subrange(0, n as int) =~= frame@);
    }
    if n == 0 {
        0
    } else if frame[n - 1] == 10 {
        nl
    } else {
        proof {
            lemma_newline_count_last(frame@);
        }
        nl + 1
    }
}

/// A sequence holds no more newlines than bytes, and strictly fewer when
/// its last byte is no newline.
pub proof fn lemma_newline_count_last(s: Seq<u8>)
    ensures
        0 <= newline_count(s) <= s.len(),
        s.len() > 0 && s[s.len() - 1] != 10 ==> newline_count(s) < s.len(),
    decreases s.len(),
{
    if s.len() > 0 {
        lemma_newline_count_last(s.drop_first());
        assert(s.len() > 1 ==> s.drop_first()[s.len() - 2] == s[s.len() - 1]);
    }
}

/// The display sink's redraw state: whether a frame was ever drawn.
pub struct ScreenState {
    have_output: bool,
}

impl ScreenState {
    /// Whether any frame was drawn so far.
    pub closed spec fn has_output(self) -> bool {
        self.have_output
    }

    /// Before the first frame nothing is on the surface.
    pub fn new() -> (s: Self)
        ensures
            !s.has_output(),
    {
        ScreenState { have_output: false }
    }

    /// Decides a frame's redraw: erase the previous region exactly when one
    /// was drawn before, and move back up by the frame's line count.
    pub fn on_frame(&mut self, frame: &Vec<u8>) -> (r: (bool, usize))
        ensures
            r.0 == old(self).has_output(),
            r.1 == lines_of(frame@),
            final(self).has_output(),
    {
        let erase = self.have_output;
        let lines = count_lines(frame);
        self.have_output = true;
        (erase, lines)
    }

    /// On shutdown a final erase is owed exactly when a frame was drawn.
    pub fn needs_final_erase(&self) -> (r: bool)
        ensures
            r == self.has_output(),
    {
        self.have_output
    }
}

} // verus!
