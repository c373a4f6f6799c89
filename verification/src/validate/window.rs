//! The anti-replay window.
use vstd::prelude::*;

verus! {

/// Anti-replay window for sequence numbers that may legally arrive out of
/// order (reliable-unordered channels): a 64-bit bitmap over the sequence
/// numbers just below the highest accepted, the scheme of RFC 4303 section
/// 3.4.3. Numbers older than the window are rejected as replays.
#[derive(Debug, Clone, Copy)]
pub struct ReplayWindow {
    top: u32,
    bits: u64,
    primed: bool,
}

/// What a window knows: the highest number accepted, if any, and which of the
/// numbers that it still covers were accepted.
#[verifier::ext_equal]
pub struct WindowView {
    pub top: Option<u32>,
    pub seen: Set<u32>,
}

impl WindowView {
    pub open spec fn empty() -> WindowView {
        WindowView { top: None, seen: Set::empty() }
    }

    /// Too far below the highest accepted number to be remembered.
    pub open spec fn too_old(self, seq: u32) -> bool {
        self.top matches Some(top) && seq + ReplayWindow::WIDTH <= top
    }

    /// Neither seen nor too old to tell.
    pub open spec fn accepts(self, seq: u32) -> bool {
        !self.seen.contains(seq) && !self.too_old(seq)
    }

    /// The window after `seq` was offered.
    pub open spec fn after(self, seq: u32) -> WindowView {
        if self.accepts(seq) {
            let top: u32 = match self.top {
                Some(top) => if top < seq {
                    seq
                } else {
                    top
                },
                None => seq,
            };
            WindowView {
                top: Some(top),
                seen: self.seen.insert(seq).filter(|s: u32| s + ReplayWindow::WIDTH > top),
            }
        } else {
            self
        }
    }

    /// Nothing above the highest accepted number was seen.
    pub open spec fn wf(self) -> bool {
        forall|s: u32| self.seen.contains(s) ==> (self.top matches Some(top) && s <= top)
    }
}

/// Bit `i` of a bitmap.
pub open spec fn bit(bits: u64, i: u64) -> bool {
    (bits >> i) & 1 == 1
}

impl View for ReplayWindow {
    type V = WindowView;

    closed spec fn view(&self) -> WindowView {
        WindowView {
            top: if self.primed {
                Some(self.top)
            } else {
                None
            },
            seen: Set::new(
                |s: u32|
                    self.primed && s <= self.top && self.top - s < ReplayWindow::WIDTH && bit(
                        self.bits,
                        (self.top - s) as u64,
                    ),
            ),
        }
    }
}

impl Default for ReplayWindow {
    fn default() -> (r: Self)
        ensures
            r@ == WindowView::empty(),
    {
        let r = ReplayWindow { top: 0, bits: 0, primed: false };
        assert(r@ =~= WindowView::empty());
        r
    }
}

impl ReplayWindow {
    /// Sequence numbers the window remembers, the highest accepted among them.
    pub const WIDTH: u32 = 64;

    /// Accept `seq` if it has not been seen; false if it was, or if it is too
    /// old to tell.
    pub fn accept(&mut self, seq: u32) -> (r: bool)
        ensures
            r == old(self)@.accepts(seq),
            final(self)@ == old(self)@.after(seq),
    {
        if !self.primed {
            self.primed = true;
            self.top = seq;
            self.bits = 1;
            proof {
                assert(bit(1, 0)) by (bit_vector);
                assert forall|i: u64| 0 < i < 64 implies !bit(1, i) by {
                    assert(0 < i < 64 ==> (1u64 >> i) & 1 != 1) by (bit_vector);
                }
                assert(self@ =~= old(self)@.after(seq));
            }
            return true;
        }
        if seq > self.top {
            let shift: u32 = seq - self.top;
            let shifted: u64 = if shift < Self::WIDTH {
                self.bits << shift
            } else {
                0
            };
            self.bits = shifted | 1;
            self.top = seq;
            proof {
                let before = old(self).bits;
                let after = self.bits;
                assert(bit(after, 0)) by {
                    assert(((shifted | 1) >> 0) & 1 == 1) by (bit_vector);
                }
                assert forall|i: u64| 0 < i < 64 implies bit(after, i) == (i >= shift && bit(
                    before,
                    (i - shift) as u64,
                )) by {
                    lemma_slide(before, shift as u64, i);
                }
                assert(self@ =~= old(self)@.after(seq));
            }
            return true;
        }
        let back: u32 = self.top - seq;
        if back >= Self::WIDTH {
            return false;
        }
        let mask: u64 = 1u64 << back;
        let bits: u64 = self.bits;
        proof {
            let i = back as u64;
            assert(bits & (1u64 << i) != 0 <==> (bits >> i) & 1 == 1) by (bit_vector)
                requires
                    i < 64,
            ;
        }
        if bits & mask != 0 {
            return false;
        }
        self.bits = bits | mask;
        proof {
            let after = self.bits;
            let b = back as u64;
            assert forall|i: u64| i < 64 implies bit(after, i) == (bit(bits, i) || i == b) by {
                assert(i < 64 && b < 64 ==> (((bits | (1u64 << b)) >> i) & 1 == 1 <==> ((bits
                    >> i) & 1 == 1 || i == b))) by (bit_vector);
            }
            assert(self@ =~= old(self)@.after(seq));
        }
        true
    }
}

/// Sliding the bitmap up by `shift` and marking the lowest place.
proof fn lemma_slide(bits: u64, shift: u64, i: u64)
    requires
        0 < i < 64,
        0 < shift,
    ensures
        bit(
            if shift < 64 {
                bits << shift
            } else {
                0
            } | 1,
            i,
        ) == (i >= shift && bit(bits, (i - shift) as u64)),
{
    if shift < 64 {
        if i >= shift {
            let d = (i - shift) as u64;
            assert((((bits << shift) | 1) >> i) & 1 == (bits >> d) & 1) by (bit_vector)
                requires
                    0 < i < 64,
                    0 < shift < 64,
                    i == d + shift,
            ;
        } else {
            assert((((bits << shift) | 1) >> i) & 1 != 1) by (bit_vector)
                requires
                    0 < i < shift,
                    shift < 64,
            ;
        }
    } else {
        assert(((0u64 | 1) >> i) & 1 != 1) by (bit_vector)
            requires
                0 < i < 64,
        ;
    }
}

/// The window after all of `seqs` were offered, in order.
pub open spec fn after_all(w: WindowView, seqs: Seq<u32>) -> WindowView
    decreases seqs.len(),
{
    if seqs.len() == 0 {
        w
    } else {
        after_all(w, seqs.drop_last()).after(seqs.last())
    }
}

/// What a window refuses it goes on refusing, whatever it is offered in
/// between.
pub proof fn law_refusal_is_final(w: WindowView, seqs: Seq<u32>, seq: u32)
    requires
        w.wf(),
        !w.accepts(seq),
    ensures
        !after_all(w, seqs).accepts(seq),
        after_all(w, seqs).wf(),
    decreases seqs.len(),
{
    if seqs.len() > 0 {
        law_refusal_is_final(w, seqs.drop_last(), seq);
    }
}

/// No number is accepted twice, whatever is offered in between.
pub proof fn law_no_number_is_accepted_twice(w: WindowView, seqs: Seq<u32>, seq: u32)
    requires
        w.wf(),
        w.accepts(seq),
    ensures
        !after_all(w.after(seq), seqs).accepts(seq),
{
    law_refusal_is_final(w.after(seq), seqs, seq);
}

/// A number above every accepted one is accepted, and so is one not seen that
/// is less than the window's width below the highest; one further below is not.
pub proof fn law_window_edges(w: WindowView, seq: u32)
    requires
        w.wf(),
    ensures
        w.top is None ==> w.accepts(seq),
        w.top matches Some(top) ==> {
            &&& seq > top ==> w.accepts(seq)
            &&& seq <= top && top - seq < 64 ==> w.accepts(seq) == !w.seen.contains(seq)
            &&& seq <= top && top - seq >= 64 ==> !w.accepts(seq)
        },
{
}

/// Every window a program can make covers nothing above the highest accepted
/// number.
pub proof fn law_windows_are_well_formed(w: ReplayWindow)
    ensures
        w@.wf(),
{
}

/// Accepting a number marks that number and no other: the highest is the higher
/// of the two, what was seen within the width of it stays seen, what is further
/// below is forgotten. A refused number changes nothing.
pub proof fn law_only_the_offered_number_is_marked(w: WindowView, seq: u32, s: u32)
    ensures
        ({
            let after = w.after(seq);
            &&& !w.accepts(seq) ==> after == w
            &&& w.accepts(seq) ==> {
                &&& after.top matches Some(top)
                &&& top == seq || Some(top) == w.top
                &&& top >= seq
                &&& w.top matches Some(was) ==> top >= was
                &&& after.seen.contains(s) <==> (s == seq || w.seen.contains(s)) && s + 64 > top
            }
        }),
{
}

/// Offering one number does not spoil another: a number that was acceptable
/// still is, unless it is that number or is now 64 or more below it.
pub proof fn law_other_numbers_stay_acceptable(w: WindowView, seq: u32, s: u32)
    requires
        w.accepts(s),
        s != seq,
        s + 64 > seq,
    ensures
        w.after(seq).accepts(s),
{
}

} // verus!
