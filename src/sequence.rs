//! Inclusive, direction-aware arithmetic progressions.
use vstd::prelude::*;

verus! {

/// A signed integer type a sweep grid can be built over.
///
/// Each value has a mathematical meaning `spec_int`, and all values lie in
/// `[min_value(), max_value()]`.
pub trait NumLike: Copy + Sized {
    spec fn spec_int(self) -> int;

    spec fn min_value() -> int;

    spec fn max_value() -> int;

    proof fn lemma_in_range(self)
        ensures
            Self::min_value() <= self.spec_int() <= Self::max_value(),
    ;

    /// `self <= other`.
    fn num_le(self, other: Self) -> (r: bool)
        ensures
            r == (self.spec_int() <= other.spec_int()),
    ;

    /// The sign of `self`: -1, 0 or 1.
    fn signum_of(self) -> (r: i8)
        ensures
            r == (if self.spec_int() > 0 {
                1i8
            } else if self.spec_int() < 0 {
                -1i8
            } else {
                0i8
            }),
    ;

    /// `self + other`, or `None` when the sum is not a value of the type.
    fn add_checked(self, other: Self) -> (r: Option<Self>)
        ensures
            match r {
                Some(v) => v.spec_int() == self.spec_int() + other.spec_int(),
                None => !(Self::min_value() <= self.spec_int() + other.spec_int()
                    <= Self::max_value()),
            },
    ;
}

impl NumLike for i32 {
    open spec fn spec_int(self) -> int {
        self as int
    }

    open spec fn min_value() -> int {
        i32::MIN as int
    }

    open spec fn max_value() -> int {
        i32::MAX as int
    }

    proof fn lemma_in_range(self) {
    }

    fn num_le(self, other: Self) -> (r: bool) {
        self <= other
    }

    fn signum_of(self) -> (r: i8) {
        if self > 0 {
            1
        } else if self < 0 {
            -1
        } else {
            0
        }
    }

    fn add_checked(self, other: Self) -> (r: Option<Self>) {
        self.checked_add(other)
    }
}

impl NumLike for i64 {
    open spec fn spec_int(self) -> int {
        self as int
    }

    open spec fn min_value() -> int {
        i64::MIN as int
    }

    open spec fn max_value() -> int {
        i64::MAX as int
    }

    proof fn lemma_in_range(self) {
    }

    fn num_le(self, other: Self) -> (r: bool) {
        self <= other
    }

    fn signum_of(self) -> (r: i8) {
        if self > 0 {
            1
        } else if self < 0 {
            -1
        } else {
            0
        }
    }

    fn add_checked(self, other: Self) -> (r: Option<Self>) {
        self.checked_add(other)
    }
}

/// Number of terms of the progression `start, start + step, ...` bounded by
/// `end` (inclusive), with the direction given by `start <= end`.  A step that
/// does not move towards `end` gives the single term `start`.
pub open spec fn progression_len(start: int, step: int, end: int) -> nat {
    if start <= end && step > 0 {
        ((end - start) / step + 1) as nat
    } else if start > end && step < 0 {
        ((start - end) / (-step) + 1) as nat
    } else {
        1
    }
}

/// The `k`-th term `start + k * step`.
pub open spec fn term(start: int, step: int, k: int) -> int {
    start + k * step
}

/// The terms of the inclusive progression from `start` towards `end`.
pub open spec fn progression(start: int, step: int, end: int) -> Seq<int> {
    Seq::new(progression_len(start, step, end), |k: int| term(start, step, k))
}

/// An upward progression starts at `start` and ends at the greatest value
/// `start + k * step` (`k >= 0`) that does not exceed `end`.
pub proof fn lemma_progression_inclusive(start: int, step: int, end: int)
    requires
        start <= end,
        step > 0,
    ensures
        progression(start, step, end).len() >= 1,
        progression(start, step, end)[0] == start,
        progression(start, step, end).last() <= end,
        progression(start, step, end).last() == start + ((end - start) / step) * step,
        forall|k: int|
            k >= 0 && #[trigger] term(start, step, k) <= end ==> term(start, step, k)
                <= progression(start, step, end).last(),
{
    let s = progression(start, step, end);
    let q = (end - start) / step;
    vstd::arithmetic::div_mod::lemma_fundamental_div_mod(end - start, step);
    assert(0 <= (end - start) % step < step);
    assert(q >= 0) by {
        vstd::arithmetic::div_mod::lemma_div_pos_is_pos(end - start, step);
    }
    assert(s.len() == q + 1);
    assert(s[0] == start + 0 * step);
    assert(s.last() == start + q * step);
    assert(q * step <= end - start) by (nonlinear_arith)
        requires
            end - start == step * q + (end - start) % step,
            (end - start) % step >= 0,
    ;
    assert forall|k: int| k >= 0 && #[trigger] term(start, step, k) <= end implies term(
        start,
        step,
        k,
    ) <= s.last() by {
        if k > q {
            assert(k * step >= (q + 1) * step) by (nonlinear_arith)
                requires
                    k >= q + 1,
                    step > 0,
            ;
            assert((q + 1) * step == q * step + step) by (nonlinear_arith);
        } else {
            assert(k * step <= q * step) by (nonlinear_arith)
                requires
                    k <= q,
                    step > 0,
            ;
        }
    }
}

/// A step that does not move from `start` towards `end` (zero, or of the
/// wrong sign) gives a one-term progression: iteration always ends.
pub proof fn lemma_progression_stalled_step(start: int, step: int, end: int)
    requires
        (start <= end && step <= 0) || (start > end && step >= 0),
    ensures
        progression(start, step, end).len() == 1,
        progression(start, step, end)[0] == start,
{
    assert(start + 0 * step == start);
}

/// An inclusive arithmetic sequence `[start, end]` with interval `step`.
///
/// `next` yields `start` first, then keeps adding `step` while the value
/// stays on `start`'s side of `end` (inclusive).  After it has reported the
/// end once, iteration starts again from `start`.
#[derive(Debug, Clone, Copy)]
pub struct Sequence<T: NumLike> {
    start: T,
    step: T,
    end: T,
    current: Option<T>,
}

/// The term after `c`, if it does not pass `end`: the progression runs
/// upwards when `start <= end` and downwards otherwise, and a step that does
/// not move that way ends it.
pub open spec fn next_term(start: int, step: int, end: int, c: int) -> Option<int> {
    if (start <= end && step > 0 && c + step <= end) || (start > end && step < 0 && c + step
        >= end) {
        Some(c + step)
    } else {
        None
    }
}

/// The mathematical values of a sequence of numbers.
pub open spec fn ints_of<T: NumLike>(s: Seq<T>) -> Seq<int> {
    s.map_values(|x: T| x.spec_int())
}

proof fn lemma_next_term_index(start: int, step: int, end: int, k: int)
    requires
        0 <= k < progression_len(start, step, end),
    ensures
        next_term(start, step, end, start + k * step) == (if k + 1 < progression_len(
            start,
            step,
            end,
        ) {
            Some(start + (k + 1) * step)
        } else {
            None::<int>
        }),
{
    let c = start + k * step;
    assert(c + step == start + (k + 1) * step) by (nonlinear_arith)
        requires
            c == start + k * step,
    ;
    if start <= end && step > 0 {
        let q = (end - start) / step;
        vstd::arithmetic::div_mod::lemma_fundamental_div_mod(end - start, step);
        let r = (end - start) % step;
        assert(end - start == step * q + r);
        assert(0 <= r < step);
        if k + 1 <= q {
            assert((k + 1) * step <= q * step) by (nonlinear_arith)
                requires
                    k + 1 <= q,
                    step > 0,
            ;
        } else {
            assert(k + 1 == q + 1);
            assert((k + 1) * step == q * step + step) by (nonlinear_arith)
                requires
                    k + 1 == q + 1,
            ;
        }
    } else if start > end && step < 0 {
        let d = -step;
        let q = (start - end) / d;
        vstd::arithmetic::div_mod::lemma_fundamental_div_mod(start - end, d);
        let r = (start - end) % d;
        assert(start - end == d * q + r);
        assert(0 <= r < d);
        if k + 1 <= q {
            assert((k + 1) * d <= q * d) by (nonlinear_arith)
                requires
                    k + 1 <= q,
                    d > 0,
            ;
        } else {
            assert(k + 1 == q + 1);
            assert((k + 1) * d == q * d + d) by (nonlinear_arith)
                requires
                    k + 1 == q + 1,
            ;
        }
        assert((k + 1) * step == -((k + 1) * d)) by (nonlinear_arith)
            requires
                d == -step,
        ;
    }
}

impl<T: NumLike> Sequence<T> {
    pub closed spec fn spec_start(&self) -> int {
        self.start.spec_int()
    }

    pub closed spec fn spec_step(&self) -> int {
        self.step.spec_int()
    }

    pub closed spec fn spec_end(&self) -> int {
        self.end.spec_int()
    }

    /// All terms of the sequence, from the beginning.
    pub open spec fn spec_values(&self) -> Seq<int> {
        progression(self.spec_start(), self.spec_step(), self.spec_end())
    }

    /// The value that was yielded last, if the iteration has begun.
    pub closed spec fn spec_current(&self) -> Option<int> {
        match self.current {
            Some(c) => Some(c.spec_int()),
            None => None,
        }
    }

    pub fn new(start: T, step: T, end: T) -> (r: Self)
        ensures
            r.spec_start() == start.spec_int(),
            r.spec_step() == step.spec_int(),
            r.spec_end() == end.spec_int(),
            r.spec_current() is None,
    {
        Sequence { start, step, end, current: None }
    }

    /// Advances the iteration: `start` first, then the next term while one
    /// remains; after the last term, `None`, and the iteration starts over.
    pub fn next(&mut self) -> (r: Option<T>)
        ensures
            final(self).spec_start() == old(self).spec_start(),
            final(self).spec_step() == old(self).spec_step(),
            final(self).spec_end() == old(self).spec_end(),
            final(self).spec_current() == match r {
                Some(v) => Some(v.spec_int()),
                None => None::<int>,
            },
            final(self).spec_current() == match old(self).spec_current() {
                None => Some(old(self).spec_start()),
                Some(c) => next_term(
                    old(self).spec_start(),
                    old(self).spec_step(),
                    old(self).spec_end(),
                    c,
                ),
            },
    {
        let r = match self.current {
            None => Some(self.start),
            Some(c) => {
                let ascending = self.start.num_le(self.end);
                let sign = self.step.signum_of();
                if (ascending && sign > 0) || (!ascending && sign < 0) {
                    proof {
                        self.end.lemma_in_range();
                        c.lemma_in_range();
                    }
                    match c.add_checked(self.step) {
                        Some(n) => {
                            if ascending {
                                if n.num_le(self.end) {
                                    Some(n)
                                } else {
                                    None
                                }
                            } else if self.end.num_le(n) {
                                Some(n)
                            } else {
                                None
                            }
                        },
                        None => None,
                    }
                } else {
                    None
                }
            },
        };
        self.current = r;
        r
    }

    /// All terms, collected from a fresh iteration (the state of `self` is
    /// not used).
    pub fn values(&self) -> (r: Vec<T>)
        ensures
            ints_of(r@) == self.spec_values(),
    {
        let mut it = Sequence { start: self.start, step: self.step, end: self.end, current: None };
        let mut out: Vec<T> = Vec::new();
        let ghost start = self.spec_start();
        let ghost step = self.spec_step();
        let ghost end = self.spec_end();
        let ghost len = progression_len(start, step, end);
        let first = it.next();
        match first {
            Some(v) => out.push(v),
            None => {},
        }
        proof {
            assert(start + 0 * step == start);
        }
        loop
            invariant_except_break
                it.spec_current() == Some(start + (out@.len() - 1) * step),
            invariant
                1 <= out@.len() <= len,
                it.spec_start() == start,
                it.spec_step() == step,
                it.spec_end() == end,
                len == progression_len(start, step, end),
                forall|i: int|
                    0 <= i < out@.len() ==> #[trigger] out@[i].spec_int() == start + i * step,
            ensures
                out@.len() == len,
                forall|i: int|
                    0 <= i < out@.len() ==> #[trigger] out@[i].spec_int() == start + i * step,
            decreases len - out@.len(),
        {
            proof {
                lemma_next_term_index(start, step, end, out@.len() - 1);
            }
            let n = it.next();
            match n {
                Some(v) => out.push(v),
                None => break,
            }
        }
        proof {
            assert(ints_of(out@) =~= self.spec_values());
        }
        out
    }
}

} // verus!
