//! Fixed-point win-probability values, the temporal-difference update, and
//! the lazily populated value table mapping each compact state to the
//! owning player's current estimate of winning from it.

use vstd::prelude::*;

verus! {

use crate::game::board::Piece;
use crate::states;
use crate::states::{SCALE, HALF, STATE_COUNT};

/// Result of moving value `v` a fraction `lr / SCALE` of the way towards
/// `target`, rounding the correction down.
pub open spec fn td_value(v: u64, target: u64, lr: u64) -> int {
    if target >= v {
        v + lr * (target - v) / (SCALE as int)
    } else {
        v - lr * (v - target) / (SCALE as int)
    }
}

/// The temporal-difference update never leaves the closed interval between
/// the old value and the target.
pub proof fn lemma_td_value_bounds(v: u64, target: u64, lr: u64)
    requires
        v <= SCALE,
        target <= SCALE,
        lr <= SCALE,
    ensures
        target >= v ==> v <= td_value(v, target, lr) <= target,
        target < v ==> target <= td_value(v, target, lr) <= v,
        0 <= td_value(v, target, lr) <= SCALE,
{
    if target >= v {
        let d = target - v;
        assert(0 <= lr * d <= SCALE * d) by (nonlinear_arith)
            requires
                0 <= lr <= SCALE,
                0 <= d,
        ;
        assert(0 <= lr * d / (SCALE as int) <= d) by (nonlinear_arith)
            requires
                0 <= lr * d <= SCALE * d,
                0 < SCALE,
                0 <= d,
        ;
    } else {
        let d = v - target;
        assert(0 <= lr * d <= SCALE * d) by (nonlinear_arith)
            requires
                0 <= lr <= SCALE,
                0 <= d,
        ;
        assert(0 <= lr * d / (SCALE as int) <= d) by (nonlinear_arith)
            requires
                0 <= lr * d <= SCALE * d,
                0 < SCALE,
                0 <= d,
        ;
    }
}

/// The temporal-difference update law: the new value moves from the old one
/// towards the target by the learning-rate fraction of their distance; a
/// zero rate leaves the value unchanged, and a full rate snaps it exactly to
/// the target.
pub proof fn lemma_td_update_law(v: u64, target: u64, lr: u64)
    requires
        v <= SCALE,
        target <= SCALE,
        lr <= SCALE,
    ensures
        target >= v ==> td_value(v, target, lr) == v + lr * (target - v) / (SCALE as int),
        target < v ==> td_value(v, target, lr) == v - lr * (v - target) / (SCALE as int),
        lr == 0 ==> td_value(v, target, lr) == v,
        lr == SCALE ==> td_value(v, target, lr) == target,
        0 <= td_value(v, target, lr) <= SCALE,
{
    lemma_td_value_bounds(v, target, lr);
    if lr == 0 {
        assert(0 * (target - v) == 0 && 0 * (v - target) == 0);
        assert(0int / (SCALE as int) == 0);
    }
    if lr == SCALE {
        if target >= v {
            let d = target - v;
            assert((SCALE as int) * d / (SCALE as int) == d) by (nonlinear_arith)
                requires
                    0 < SCALE,
                    0 <= d,
            ;
            assert(lr * d == (SCALE as int) * d);
        } else {
            let d = v - target;
            assert((SCALE as int) * d / (SCALE as int) == d) by (nonlinear_arith)
                requires
                    0 < SCALE,
                    0 <= d,
            ;
            assert(lr * d == (SCALE as int) * d);
        }
    }
}

/// Apply the temporal-difference update.
pub fn td_update(v: u64, target: u64, lr: u64) -> (r: u64)
    requires
        v <= SCALE,
        target <= SCALE,
        lr <= SCALE,
    ensures
        r as int == td_value(v, target, lr),
        r <= SCALE,
{
    proof {
        lemma_td_value_bounds(v, target, lr);
    }
    if target >= v {
        let d = target - v;
        v + (lr * d) / SCALE
    } else {
        let d = v - target;
        v - (lr * d) / SCALE
    }
}

/// A table is well formed for the player owning side `me` when it has one
/// slot per compact state and every populated slot holds a value in range,
/// with terminal states held exactly at their fixed outcome value.
pub open spec fn wf_table(t: Seq<Option<u64>>, me: Piece) -> bool {
    &&& t.len() == STATE_COUNT
    &&& forall|i: int|
        0 <= i < STATE_COUNT && t[i] is Some ==> ((#[trigger] t[i])->0 <= SCALE && (
        states::terminal(states::state_of_index(i)) ==> t[i]->0 == states::default_value(
            states::state_of_index(i),
            me,
        )))
}

/// The value a lookup of state `s` in table `t` yields: the stored value if
/// the state has been seen, and its default value otherwise.
pub open spec fn stored_or_default(t: Seq<Option<u64>>, s: Seq<Piece>, me: Piece) -> u64 {
    if t[states::state_index(s)] is Some {
        t[states::state_index(s)]->0
    } else {
        states::default_value(s, me)
    }
}

/// Terminal states are evaluated exactly: a well-formed table yields 1.0
/// for a state the owning side has won, 0.0 for a lost or drawn state, and
/// never anything above 1.0 for any state.
pub proof fn lemma_terminal_value(t: Seq<Option<u64>>, s: Seq<Piece>, me: Piece)
    requires
        wf_table(t, me),
        states::valid_state(s),
    ensures
        states::winner(s) == Some(me) ==> stored_or_default(t, s, me) == SCALE,
        states::winner(s) is Some && states::winner(s) != Some(me) ==> stored_or_default(t, s, me)
            == 0,
        states::winner(s) is None && states::full(s) ==> stored_or_default(t, s, me) == 0,
        stored_or_default(t, s, me) <= SCALE,
{
    states::lemma_state_index_range(s);
    states::lemma_state_index_roundtrip(s);
}

/// An unseen non-terminal state evaluates to exactly 0.5, on its first
/// lookup and, the default having been recorded, on every later lookup
/// until an update writes to it.
pub proof fn lemma_unseen_default(t: Seq<Option<u64>>, s: Seq<Piece>, me: Piece)
    requires
        wf_table(t, me),
        states::valid_state(s),
        !states::terminal(s),
        t[states::state_index(s)] is None,
    ensures
        stored_or_default(t, s, me) == HALF,
        stored_or_default(t.update(states::state_index(s), Some(HALF)), s, me) == HALF,
{
    states::lemma_state_index_range(s);
}

/// A loss correction on a previously unseen, undecided state drops its
/// value strictly below the 0.5 default whenever the learning rate is at
/// least two fixed-point units: the state evaluates to `HALF` and the
/// correction moves it towards zero, the value of the terminal state the
/// opponent forced. A rate of a single unit is floor-rounded away and
/// leaves the value unchanged; that input is left out here.
pub proof fn lemma_loss_correction_drops(t: Seq<Option<u64>>, s: Seq<Piece>, me: Piece, lr: u64)
    requires
        states::valid_state(s),
        !states::terminal(s),
        t[states::state_index(s)] is None,
        2 <= lr <= SCALE,
    ensures
        td_value(stored_or_default(t, s, me), 0, lr) < HALF,
{
    assert(stored_or_default(t, s, me) == HALF);
    assert(lr * (HALF as int) >= SCALE);
    assert(lr * (HALF as int) / (SCALE as int) >= 1) by (nonlinear_arith)
        requires
            lr * (HALF as int) >= (SCALE as int),
            0 < SCALE,
    ;
}

/// The mapping from compact states to estimated win probabilities, lazily
/// populated: a slot per state, empty until the state is first evaluated.
pub struct ValueTable {
    pub slots: Vec<Option<u64>>,
}

impl View for ValueTable {
    type V = Seq<Option<u64>>;

    open spec fn view(&self) -> Seq<Option<u64>> {
        self.slots@
    }
}

impl ValueTable {
    /// Well-formedness for the player owning side `me`.
    pub open spec fn wf(&self, me: Piece) -> bool {
        wf_table(self@, me)
    }

    /// A fresh table with every state unseen.
    pub fn new() -> (t: ValueTable)
        ensures
            t@.len() == STATE_COUNT,
            forall|i: int| 0 <= i < STATE_COUNT ==> t@[i] is None,
            forall|me: Piece| t.wf(me),
    {
        let mut slots: Vec<Option<u64>> = Vec::new();
        let mut i: usize = 0;
        while i < STATE_COUNT
            invariant
                i <= STATE_COUNT,
                slots@.len() == i,
                forall|j: int| 0 <= j < i ==> slots@[j] is None,
            decreases STATE_COUNT - i,
        {
            slots.push(None);
            i += 1;
        }
        ValueTable { slots }
    }

    /// Whether state `s` has already been materialized in the table.
    pub fn contains(&self, s: &[Piece; 9]) -> (r: bool)
        requires
            self@.len() == STATE_COUNT,
        ensures
            r == (self@[states::state_index(s@)] is Some),
    {
        let idx = states::encode_state(s);
        self.slots[idx].is_some()
    }

    /// The stored value of state `s`, if the state has been seen.
    pub fn lookup(&self, s: &[Piece; 9]) -> (r: Option<u64>)
        requires
            self@.len() == STATE_COUNT,
        ensures
            r == self@[states::state_index(s@)],
    {
        let idx = states::encode_state(s);
        self.slots[idx]
    }

    /// Evaluate state `s` for the player owning side `me`: return the stored
    /// value if present, otherwise compute the state's default value, record
    /// it, and return it. Evaluating a state thus materializes it.
    pub fn evaluate(&mut self, s: &[Piece; 9], me: Piece) -> (r: u64)
        requires
            old(self).wf(me),
        ensures
            final(self).wf(me),
            r == stored_or_default(old(self)@, s@, me),
            r <= SCALE,
            states::terminal(s@) ==> r == states::default_value(s@, me),
            final(self)@ == if old(self)@[states::state_index(s@)] is Some {
                old(self)@
            } else {
                old(self)@.update(states::state_index(s@), Some(r))
            },
    {
        let idx = states::encode_state(s);
        proof {
            states::lemma_state_index_roundtrip(s@);
        }
        match self.slots[idx] {
            Some(v) => v,
            None => {
                let d = states::default_of(s, me);
                self.slots.set(idx, Some(d));
                d
            },
        }
    }

    /// Store `value` for the non-terminal state `s`, overwriting anything
    /// recorded before. Keeps the table well formed for every side, since
    /// only the update rule writes here and it never touches terminal
    /// states.
    pub fn set(&mut self, s: &[Piece; 9], value: u64)
        requires
            old(self)@.len() == STATE_COUNT,
            value <= SCALE,
            !states::terminal(s@),
        ensures
            final(self)@ == old(self)@.update(states::state_index(s@), Some(value)),
            forall|p: Piece| old(self).wf(p) ==> final(self).wf(p),
    {
        let idx = states::encode_state(s);
        proof {
            states::lemma_state_index_roundtrip(s@);
        }
        self.slots.set(idx, Some(value));
        proof {
            let told = old(self)@;
            let tnew = final(self)@;
            assert forall|p: Piece| wf_table(told, p) implies wf_table(tnew, p) by {
                assert forall|i: int|
                    0 <= i < STATE_COUNT && tnew[i] is Some implies ((#[trigger] tnew[i])->0
                    <= SCALE && (states::terminal(states::state_of_index(i)) ==> tnew[i]->0
                    == states::default_value(states::state_of_index(i), p))) by {
                    if i != states::state_index(s@) {
                        assert(tnew[i] == told[i]);
                    }
                }
            }
        }
    }
}

} // verus!
