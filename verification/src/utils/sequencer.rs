//! A sequencer hands out `offset`, `offset + step`, `offset + 2 * step`, ...
//! for as long as the value does not pass `max`.

use vstd::prelude::*;

verus! {

/// The values a sequencer holds.
pub struct SequencerState {
    pub offset: nat,
    pub step: nat,
    pub max: nat,
}

impl SequencerState {
    /// The last value the sequencer will hand out, if it hands out any:
    /// the largest `offset + k * step` that does not pass `max`.
    pub open spec fn last_yield(self) -> nat {
        (self.offset + ((self.max - self.offset) / (self.step as int)) * self.step) as nat
    }

    /// Handing out every value ends, and the step after the last value
    /// still fits in a `u32`.
    pub open spec fn drains(self) -> bool {
        self.offset > self.max || (self.step > 0 && self.last_yield() + self.step <= u32::MAX)
    }

    /// What the next call of `next` hands out: the current value while it
    /// does not pass `max`.
    pub open spec fn next_value(self) -> Option<nat> {
        if self.offset <= self.max {
            Some(self.offset)
        } else {
            None
        }
    }

    /// The state after a call of `next`: moved on by `step` when it handed
    /// out a value, else unchanged.
    pub open spec fn after_next(self) -> Self {
        if self.offset <= self.max {
            SequencerState { offset: self.offset + self.step, ..self }
        } else {
            self
        }
    }

    /// The state after `k` calls of `next`.
    pub open spec fn after_calls(self, k: nat) -> Self
        decreases k,
    {
        if k == 0 {
            self
        } else {
            self.after_calls((k - 1) as nat).after_next()
        }
    }

    /// What call number `k` (from 0) of `next` hands out.
    pub open spec fn value_of_call(self, k: nat) -> Option<nat> {
        self.after_calls(k).next_value()
    }

    /// How many values the sequencer hands out before `None`.
    pub open spec fn count(self) -> nat {
        if self.offset <= self.max {
            ((self.max - self.offset) / (self.step as int) + 1) as nat
        } else {
            0
        }
    }

    /// The values left before `max`, as `u32::saturating_sub` counts them.
    pub open spec fn free(self) -> nat {
        if self.max >= self.offset {
            (self.max - self.offset) as nat
        } else {
            0
        }
    }
}

/// A counter with a stride and an upper bound.
#[derive(Clone, Debug)]
pub struct Sequencer {
    offset: u32,
    step: u32,
    max: u32,
}

impl View for Sequencer {
    type V = SequencerState;

    closed spec fn view(&self) -> SequencerState {
        SequencerState { offset: self.offset as nat, step: self.step as nat, max: self.max as nat }
    }
}

impl Default for Sequencer {
    fn default() -> (s: Self)
        ensures
            s@ == (SequencerState { offset: 0, step: 0, max: 0 }),
    {
        Sequencer { offset: 0, step: 0, max: 0 }
    }
}

/// If `k * step <= d < (k + 1) * step` then `k` is `d / step`.
proof fn lemma_quotient_between(d: int, step: int, k: int)
    requires
        step > 0,
        0 <= k,
        k * step <= d,
        d < (k + 1) * step,
    ensures
        d / step == k,
{
    vstd::arithmetic::div_mod::lemma_fundamental_div_mod(d, step);
    vstd::arithmetic::div_mod::lemma_mod_pos_bound(d, step);
    let q = d / step;
    let r = d % step;
    assert(q == k) by (nonlinear_arith)
        requires
            d == step * q + r,
            0 <= r < step,
            k * step <= d,
            d < (k + 1) * step,
            step > 0,
    ;
}

/// If `0 <= k` and `k * step <= d` then `k <= d / step`, so `k * step`
/// is at most `(d / step) * step`.
proof fn lemma_quotient_at_least(d: int, step: int, k: int)
    requires
        step > 0,
        0 <= k,
        k * step <= d,
    ensures
        k <= d / step,
        k * step <= (d / step) * step,
{
    vstd::arithmetic::div_mod::lemma_fundamental_div_mod(d, step);
    vstd::arithmetic::div_mod::lemma_mod_pos_bound(d, step);
    let q = d / step;
    let r = d % step;
    assert(k <= q && k * step <= q * step) by (nonlinear_arith)
        requires
            d == step * q + r,
            0 <= r < step,
            k * step <= d,
            step > 0,
    ;
}

/// The last value a sequencer hands out is the largest value of its
/// progression `offset + k * step` that does not pass `max`: it lies on the
/// progression, at most `max`, and one more step passes `max`.
pub proof fn lemma_last_yield_is_largest(s: SequencerState)
    requires
        s.offset <= s.max,
        s.step > 0,
    ensures
        s.offset <= s.last_yield() <= s.max,
        s.last_yield() + s.step > s.max,
        exists|k: nat| s.last_yield() == s.offset + #[trigger] (k * s.step),
{
    let d = (s.max - s.offset) as int;
    let st = s.step as int;
    vstd::arithmetic::div_mod::lemma_fundamental_div_mod(d, st);
    vstd::arithmetic::div_mod::lemma_mod_pos_bound(d, st);
    let q = d / st;
    let r = d % st;
    assert(0 <= q && q * st <= d && d < q * st + st) by (nonlinear_arith)
        requires
            d == st * q + r,
            0 <= r < st,
            d >= 0,
            st > 0,
    ;
    let k = q as nat;
    assert(s.last_yield() == s.offset + k * s.step);
}

/// Calls of `next` never change `step` or `max`, every value handed out is
/// at most `max`, and two values handed out one after the other differ by
/// `step`.
pub proof fn lemma_calls_keep_step_and_bound(s: SequencerState, k: nat)
    ensures
        s.after_calls(k).step == s.step,
        s.after_calls(k).max == s.max,
        s.value_of_call(k) matches Some(v) ==> v <= s.max,
        s.value_of_call(k) is Some && s.value_of_call(k + 1) is Some ==> s.value_of_call(
            k + 1,
        )->0 == s.value_of_call(k)->0 + s.step,
    decreases k,
{
    if k > 0 {
        lemma_calls_keep_step_and_bound(s, (k - 1) as nat);
    }
    assert(s.after_calls(k + 1) == s.after_calls(k).after_next());
}

/// While every call hands out a value, call `j` hands out
/// `offset + j * step` and after `k` calls the current value is
/// `offset + k * step`.
pub proof fn lemma_calls_progress(s: SequencerState, k: nat)
    requires
        k > 0 ==> s.offset + (k - 1) * s.step <= s.max,
    ensures
        s.after_calls(k) == (SequencerState { offset: s.offset + k * s.step, ..s }),
        forall|j: nat| j < k ==> #[trigger] s.value_of_call(j) == Some(s.offset + j * s.step),
    decreases k,
{
    if k > 0 {
        let k1 = (k - 1) as nat;
        assert(k1 > 0 ==> s.offset + (k1 - 1) * s.step <= s.max) by {
            if k1 > 0 {
                assert((k1 - 1) * s.step <= k1 * s.step) by (nonlinear_arith)
                    requires
                        k1 >= 1,
                ;
            }
        }
        lemma_calls_progress(s, k1);
        assert(k1 * s.step + s.step == k * s.step) by (nonlinear_arith)
            requires
                k == k1 + 1,
        ;
        assert forall|j: nat| j < k implies #[trigger] s.value_of_call(j) == Some(
            s.offset + j * s.step,
        ) by {
            if j < k1 {
                assert(s.value_of_call(j) == Some(s.offset + j * s.step));
            }
        }
    }
}

/// A sequencer with a step above 0 hands out exactly `count()` values,
/// `offset, offset + step, ...`, and `None` at every call after them.
pub proof fn lemma_values_until_none(s: SequencerState)
    requires
        s.step > 0,
    ensures
        forall|j: nat| j < s.count() ==> #[trigger] s.value_of_call(j) == Some(s.offset + j * s.step),
        forall|j: nat| j >= s.count() ==> #[trigger] s.value_of_call(j) is None,
{
    let n = s.count();
    if n > 0 {
        let d = (s.max - s.offset) as int;
        let st = s.step as int;
        vstd::arithmetic::div_mod::lemma_fundamental_div_mod(d, st);
        vstd::arithmetic::div_mod::lemma_mod_pos_bound(d, st);
        let q = d / st;
        assert(q >= 0 && q * st <= d && d < (q + 1) * st) by (nonlinear_arith)
            requires
                d == st * q + d % st,
                0 <= d % st < st,
                d >= 0,
        ;
        assert(n == q + 1);
        lemma_calls_progress(s, n);
    } else {
        assert(s.after_calls(0) == s);
    }
    assert forall|j: nat| j >= n implies #[trigger] s.value_of_call(j) is None by {
        lemma_calls_stop(s, n, j);
    }
}

/// Once a call hands out nothing, the state stays as it is.
proof fn lemma_calls_stop(s: SequencerState, n: nat, j: nat)
    requires
        s.after_calls(n).offset > s.after_calls(n).max,
        n <= j,
    ensures
        s.after_calls(j) == s.after_calls(n),
        s.value_of_call(j) is None,
    decreases j,
{
    if j > n {
        lemma_calls_stop(s, n, (j - 1) as nat);
    }
}

/// What is free is the distance from the current value up to `max`, and
/// nothing once the current value has passed `max`.
pub proof fn lemma_free_is_distance(s: SequencerState)
    ensures
        s.offset <= s.max ==> s.free() == s.max - s.offset,
        s.offset > s.max ==> s.free() == 0,
        s.free() + s.offset >= s.max,
        s.free() <= s.max,
{
}

impl Sequencer {
    /// A sequencer at `offset` that moves by `step` and stops past `max`.
    pub fn new(offset: u32, step: u32, max: u32) -> (s: Sequencer)
        ensures
            s@ == (SequencerState { offset: offset as nat, step: step as nat, max: max as nat }),
    {
        Sequencer { offset, step, max }
    }

    /// The value the sequencer hands out next, if it does not pass `max`.
    pub fn current(&self) -> (v: u32)
        ensures
            v == self@.offset,
    {
        self.offset
    }

    /// The stride.
    pub fn step(&self) -> (v: u32)
        ensures
            v == self@.step,
    {
        self.step
    }

    /// The bound the values may reach but not pass.
    pub fn max_id(&self) -> (v: u32)
        ensures
            v == self@.max,
    {
        self.max
    }

    /// How far the current value is below `max`, or 0 past it.
    pub fn free(&self) -> (v: u32)
        ensures
            v == self@.free(),
            self@.offset <= self@.max ==> v == self@.max - self@.offset,
            self@.offset > self@.max ==> v == 0,
    {
        self.max.saturating_sub(self.offset)
    }

    /// Hands out the current value and moves on by `step`, or `None` once
    /// the current value has passed `max`.
    pub fn next(&mut self) -> (r: Option<u32>)
        requires
            old(self)@.offset <= old(self)@.max ==> old(self)@.offset + old(self)@.step
                <= u32::MAX,
        ensures
            final(self)@ == old(self)@.after_next(),
            r is Some <==> old(self)@.next_value() is Some,
            r matches Some(v) ==> old(self)@.next_value() == Some(v as nat),
    {
        let current = self.offset;
        if current <= self.max {
            self.offset = self.offset + self.step;
            Some(current)
        } else {
            None
        }
    }

    /// Hands out every value and returns the last one.
    pub fn last(self) -> (r: Option<u32>)
        requires
            self@.drains(),
        ensures
            self@.offset > self@.max ==> r is None,
            self@.offset <= self@.max ==> r == Some(self@.last_yield() as u32),
    {
        let ghost s = self@;
        let mut it = self;
        let mut last: Option<u32> = None;
        let ghost mut k: int = 0;
        loop
            invariant
                s == self@,
                s.drains(),
                it@.step == s.step,
                it@.max == s.max,
                0 <= k,
                it@.offset == s.offset + k * s.step,
                k == 0 ==> last is None,
                k > 0 ==> {
                    &&& s.offset + (k - 1) * s.step <= s.max
                    &&& last == Some((s.offset + (k - 1) * s.step) as u32)
                },
            decreases
                if it@.offset <= it@.max {
                    it@.max + 1 - it@.offset
                } else {
                    0
                },
        {
            proof {
                assert(k * s.step >= 0) by (nonlinear_arith)
                    requires
                        k >= 0,
                ;
                if it@.offset <= it@.max {
                    lemma_quotient_at_least((s.max - s.offset) as int, s.step as int, k);
                }
                assert((k + 1) * s.step == k * s.step + s.step) by (nonlinear_arith);
            }
            match it.next() {
                Some(v) => {
                    last = Some(v);
                    proof {
                        k = k + 1;
                    }
                },
                None => {
                    proof {
                        if k > 0 {
                            assert((k - 1) * s.step >= 0) by (nonlinear_arith)
                                requires
                                    k >= 1,
                            ;
                            assert((k - 1 + 1) * s.step == k * s.step);
                            lemma_quotient_between(
                                (s.max - s.offset) as int,
                                s.step as int,
                                k - 1,
                            );
                        }
                    }
                    return last;
                },
            }
        }
    }
}

} // verus!
