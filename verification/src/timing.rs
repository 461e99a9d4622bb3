//! Exact arithmetic on frame delays: fractions, rounding and rescaling.

use vstd::prelude::*;
use vstd::arithmetic::div_mod::lemma_fundamental_div_mod;
use vstd::arithmetic::div_mod::lemma_fundamental_div_mod_converse;
use crate::model::frame_views;
use crate::model::total_delay;
use crate::model::Frame;
use crate::model::FrameView;

verus! {

/// The fraction `num / den`. A fraction with `den == 0` stands for no number.
///
/// The denominator is wider than the numerator: every binary fraction with up
/// to 64 significant bits and a magnitude from 2^-127 up is a `Ratio`, exactly.
#[derive(Debug, Clone, Copy, PartialEq, Eq, Structural)]
pub struct Ratio {
    /// Numerator.
    pub num: u64,
    /// Denominator.
    pub den: u128,
}

impl Ratio {
    /// The fraction is a number greater than zero.
    pub open spec fn is_positive(self) -> bool {
        self.num > 0 && self.den > 0
    }

    /// The fraction is a number strictly between zero and one.
    pub open spec fn is_proper(self) -> bool {
        self.den > 0 && 0 < self.num < self.den
    }

    /// The fraction is a number greater than `bound`.
    pub open spec fn exceeds(self, bound: int) -> bool {
        self.den > 0 && self.num > bound * self.den
    }
}

/// The largest delay that a frame can hold.
pub open spec fn max_delay() -> int {
    u16::MAX as int
}

/// `a / b` rounded up.
pub open spec fn ceil_div(a: int, b: int) -> int {
    (a + b - 1) / b
}

/// `a / b` rounded to the nearest integer, halves away from zero.
pub open spec fn round_div(a: int, b: int) -> int {
    (2 * a + b) / (2 * b)
}

/// A delay multiplied by `mul / div` and rounded to the nearest integer, but at
/// least 1 and at most what a frame can hold.
pub open spec fn scaled_delay(delay: int, mul: int, div: int) -> int {
    let exact = round_div(delay * mul, div);
    if exact < 1 {
        1
    } else if exact > max_delay() {
        max_delay()
    } else {
        exact
    }
}

/// The frame with its delay rescaled by `mul / div`.
pub open spec fn retimed_frame(frame: FrameView, mul: int, div: int) -> FrameView {
    FrameView { delay: scaled_delay(frame.delay as int, mul, div) as nat, ..frame }
}

/// The frames with every delay rescaled by `mul / div`.
pub open spec fn retimed(frames: Seq<FrameView>, mul: int, div: int) -> Seq<FrameView> {
    frames.map_values(|f: FrameView| retimed_frame(f, mul, div))
}

/// Rescaling by a fraction equal to one changes no delay that is at least 1.
pub proof fn lemma_scaled_by_one(delay: int, by: int)
    requires
        1 <= delay <= max_delay(),
        by > 0,
    ensures
        scaled_delay(delay, by, by) == delay,
{
    assert(round_div(delay * by, by) == delay) by (nonlinear_arith)
        requires
            by > 0,
            delay >= 0,
    {
        assert((2 * (delay * by) + by) == (2 * by) * delay + by);
        assert(((2 * by) * delay + by) / (2 * by) == delay);
    }
}

/// Rescaling by one half gives half the delay, rounded, but at least 1.
pub proof fn lemma_scaled_by_half(delay: int, by: int)
    requires
        0 <= delay <= max_delay(),
        by > 0,
    ensures
        scaled_delay(delay, by, 2 * by) == if delay == 0 {
            1
        } else {
            (delay + 1) / 2
        },
{
    assert(round_div(delay * by, 2 * by) == (delay + 1) / 2) by (nonlinear_arith)
        requires
            by > 0,
            delay >= 0,
    {
        let q = (delay + 1) / 2;
        let r = (delay + 1) % 2;
        assert(delay + 1 == 2 * q + r && 0 <= r < 2);
        assert(2 * (delay * by) + 2 * by == (4 * by) * q + 2 * by * r);
        assert(((4 * by) * q + 2 * by * r) / (4 * by) == q);
    }
}

/// Rescaling by 65536 or more takes every delay but zero to the largest delay
/// that a frame can hold, and zero to 1.
pub proof fn lemma_scaled_delay_saturates(delay: int, mul: int, div: int)
    requires
        0 <= delay,
        0 < div,
        mul >= 65536 * div,
    ensures
        scaled_delay(delay, mul, div) == if delay == 0 {
            1
        } else {
            max_delay()
        },
{
    if delay == 0 {
        assert(div / (2 * div) == 0) by (nonlinear_arith)
            requires
                0 < div,
        ;
        assert(0 * mul == 0);
    } else {
        assert((2 * (delay * mul) + div) / (2 * div) >= 65536) by (nonlinear_arith)
            requires
                1 <= delay,
                0 < div,
                mul >= 65536 * div,
        {
            assert(delay * mul >= 65536 * div);
            assert(2 * (delay * mul) + div >= (2 * div) * 65536);
            assert(((2 * div) * 65536) / (2 * div) == 65536);
        }
    }
}

/// `a / b` rounded up is the quotient, and one more where the division leaves a
/// remainder.
pub proof fn lemma_ceil_div(a: int, b: int)
    requires
        0 <= a,
        0 < b,
    ensures
        ceil_div(a, b) == if a % b == 0 {
            a / b
        } else {
            a / b + 1
        },
{
    lemma_fundamental_div_mod(a, b);
    let (q, r) = (a / b, a % b);
    if r == 0 {
        assert(a + b - 1 == q * b + (b - 1)) by (nonlinear_arith)
            requires
                a == b * q + r,
                r == 0,
        ;
        lemma_fundamental_div_mod_converse(a + b - 1, b, q, b - 1);
    } else {
        assert(a + b - 1 == (q + 1) * b + (r - 1)) by (nonlinear_arith)
            requires
                a == b * q + r,
        ;
        lemma_fundamental_div_mod_converse(a + b - 1, b, q + 1, r - 1);
    }
}

/// Divides and rounds up.
pub fn ceil_quotient(a: u128, b: u128) -> (quotient: u128)
    requires
        b > 0,
    ensures
        quotient == ceil_div(a as int, b as int),
{
    proof {
        lemma_ceil_div(a as int, b as int);
        lemma_fundamental_div_mod(a as int, b as int);
    }
    let q: u128 = a / b;
    if a % b != 0 {
        assert(q < a) by (nonlinear_arith)
            requires
                a == b * q + (a % b) as int,
                (a % b) as int > 0,
                b > 0,
                q >= 0,
        ;
        q + 1
    } else {
        q
    }
}

/// A rescaled delay is at least 1 and fits in a frame.
pub proof fn lemma_scaled_delay_range(delay: int, mul: int, div: int)
    ensures
        1 <= scaled_delay(delay, mul, div) <= max_delay(),
{
}

/// Rescales a delay by `mul / div`, rounding to the nearest integer and keeping
/// the result between 1 and what a frame can hold.
pub fn scale_delay(delay: u16, mul: u128, div: u128) -> (scaled: u16)
    requires
        0 < div <= 0xffff_ffff_ffff_ffff_ffff_ffff,
        mul <= 0xffff_ffff_ffff_ffff_ffff_ffff,
    ensures
        scaled == scaled_delay(delay as int, mul as int, div as int),
{
    assert(delay * mul <= 0xffff * 0xffff_ffff_ffff_ffff_ffff_ffff) by (nonlinear_arith)
        requires
            delay <= 0xffff,
            mul <= 0xffff_ffff_ffff_ffff_ffff_ffff,
    ;
    let doubled: u128 = 2 * ((delay as u128) * mul) + div;
    let exact: u128 = doubled / (2 * div);
    if exact < 1 {
        1
    } else if exact > 0xffff {
        0xffff
    } else {
        exact as u16
    }
}

/// Adds up the delays of a run of frames.
pub fn sum_delays(frames: &Vec<Frame>) -> (sum: u128)
    ensures
        sum == total_delay(frame_views(frames@)),
        sum <= frames@.len() * 0xffff,
{
    let ghost views = frame_views(frames@);
    let mut sum: u128 = 0;
    let mut i: usize = 0;
    while i < frames.len()
        invariant
            i <= frames.len(),
            views == frame_views(frames@),
            sum == total_delay(views.take(i as int)),
            sum <= i * 0xffff,
        decreases frames.len() - i,
    {
        proof {
            assert(views.take(i as int + 1).drop_last() =~= views.take(i as int));
            assert(views.take(i as int + 1).last() == frames@[i as int]@);
        }
        sum = sum + frames[i].delay as u128;
        i = i + 1;
    }
    assert(views.take(i as int) =~= views);
    sum
}

/// Rescales the delay of every frame by `mul / div`.
pub fn retime(frames: &Vec<Frame>, mul: u128, div: u128) -> (out: Vec<Frame>)
    requires
        0 < div <= 0xffff_ffff_ffff_ffff_ffff_ffff,
        mul <= 0xffff_ffff_ffff_ffff_ffff_ffff,
    ensures
        frame_views(out@) == retimed(frame_views(frames@), mul as int, div as int),
{
    let mut out: Vec<Frame> = Vec::new();
    let mut i: usize = 0;
    while i < frames.len()
        invariant
            i <= frames.len(),
            0 < div <= 0xffff_ffff_ffff_ffff_ffff_ffff,
            mul <= 0xffff_ffff_ffff_ffff_ffff_ffff,
            out@.len() == i,
            forall|j: int|
                0 <= j < i ==> (#[trigger] out@[j])@ == retimed_frame(
                    frames@[j]@,
                    mul as int,
                    div as int,
                ),
        decreases frames.len() - i,
    {
        let mut frame = frames[i].clone();
        frame.delay = scale_delay(frame.delay, mul, div);
        out.push(frame);
        i = i + 1;
    }
    assert(frame_views(out@) =~= retimed(frame_views(frames@), mul as int, div as int));
    out
}

} // verus!
