//! Changing the playback speed of an animation.

use vstd::prelude::*;
use vstd::arithmetic::div_mod::lemma_fundamental_div_mod;
use crate::error::Error;
use crate::model::frame_views;
use crate::model::Frame;
use crate::model::FrameView;
use crate::model::Gif;
use crate::model::GifView;
use crate::timing::ceil_div;
use crate::timing::ceil_quotient;
use crate::timing::lemma_scaled_delay_saturates;
use crate::timing::scaled_delay;
use crate::timing::lemma_scaled_by_half;
use crate::timing::lemma_scaled_by_one;
use crate::timing::max_delay;
use crate::timing::retime;
use crate::timing::retimed;
use crate::timing::Ratio;

verus! {

/// Number of frames that a speed-up by `factor` aims to keep of `n`:
/// `n / factor` rounded up, but at least one.
pub open spec fn frames_to_keep(n: int, factor: Ratio) -> int {
    let share = ceil_div(n * factor.den, factor.num as int);
    if share < 1 {
        1
    } else {
        share
    }
}

/// Distance between the positions of kept frames: `n` over the number of
/// frames to keep, rounded up.
pub open spec fn stride(n: int, factor: Ratio) -> int {
    ceil_div(n, frames_to_keep(n, factor))
}

/// The frames at the positions that are multiples of `step`.
pub open spec fn every_nth(frames: Seq<FrameView>, step: int) -> Seq<FrameView> {
    Seq::new(ceil_div(frames.len() as int, step) as nat, |k: int| frames[k * step])
}

/// The frames after a speed-up by `factor`.
///
/// Every delay is divided by the factor. Above a factor of 4, frames are dropped
/// as well: only those at positions that are multiples of the stride stay.
pub open spec fn sped_up(frames: Seq<FrameView>, factor: Ratio) -> Seq<FrameView> {
    let timed = retimed(frames, factor.den as int, factor.num as int);
    if factor.exceeds(4) && frames.len() > 0 {
        every_nth(timed, stride(frames.len() as int, factor))
    } else {
        timed
    }
}

/// The stride is at least 1 and at most `n`.
pub proof fn lemma_stride_range(n: int, factor: Ratio)
    requires
        n > 0,
        factor.is_positive(),
    ensures
        1 <= frames_to_keep(n, factor),
        1 <= stride(n, factor) <= n,
{
    let keep = frames_to_keep(n, factor);
    assert(1 <= (n + keep - 1) / keep <= n) by (nonlinear_arith)
        requires
            keep >= 1,
            n >= 1,
    {
        assert(n + keep - 1 >= keep);
        assert((n + keep - 1) / keep >= 1);
        assert(n + keep - 1 <= keep * n);
        assert((n + keep - 1) / keep <= n);
    }
}

/// At a factor of one nothing is dropped and every delay of at least 1 stays.
pub proof fn lemma_speed_one_keeps_delays(frames: Seq<FrameView>, factor: Ratio)
    requires
        factor.num == factor.den,
        factor.den > 0,
        forall|i: int| 0 <= i < frames.len() ==> 1 <= (#[trigger] frames[i]).delay <= max_delay(),
    ensures
        sped_up(frames, factor) == frames,
{
    assert forall|i: int| 0 <= i < frames.len() implies sped_up(frames, factor)[i] == frames[i] by {
        lemma_scaled_by_one(frames[i].delay as int, factor.den as int);
    }
    assert(sped_up(frames, factor) =~= frames);
}

/// At a factor of two nothing is dropped and every delay is halved, rounding
/// to the nearest integer, but to no less than 1.
pub proof fn lemma_speed_two_halves_delays(frames: Seq<FrameView>, factor: Ratio, i: int)
    requires
        factor.num == 2 * factor.den,
        factor.den > 0,
        0 <= i < frames.len(),
        frames[i].delay <= max_delay(),
    ensures
        sped_up(frames, factor).len() == frames.len(),
        sped_up(frames, factor)[i] == (FrameView {
            delay: if frames[i].delay == 0 {
                1
            } else {
                ((frames[i].delay + 1) / 2) as nat
            },
            ..frames[i]
        }),
{
    lemma_scaled_by_half(frames[i].delay as int, factor.den as int);
}

/// Above a factor of 4 a sequence of two frames or more loses frames.
pub proof fn lemma_fast_speed_drops_frames(frames: Seq<FrameView>, factor: Ratio)
    requires
        factor.exceeds(4),
        frames.len() >= 2,
    ensures
        sped_up(frames, factor).len() < frames.len(),
        sped_up(frames, factor).len() >= 1,
{
    let n = frames.len() as int;
    let (num, den) = (factor.num as int, factor.den as int);
    let keep = frames_to_keep(n, factor);
    let step = stride(n, factor);
    assert(2 * keep <= n && keep >= 1) by (nonlinear_arith)
        requires
            n >= 2,
            den > 0,
            num > 4 * den,
            keep == if (n * den + num - 1) / num < 1 {
                1
            } else {
                (n * den + num - 1) / num
            },
    {
        let share = (n * den + num - 1) / num;
        if share >= 1 {
            assert(4 * (n * den) < n * num);
            assert(4 * (n * den + num - 1) < n * num + 4 * num);
            assert(num * share <= n * den + num - 1);
            assert(4 * num * share < num * (n + 4));
            assert(4 * share < n + 4);
        }
    }
    assert(step >= 2) by (nonlinear_arith)
        requires
            step == (n + keep - 1) / keep,
            2 * keep <= n,
            keep >= 1,
    {
        assert(n + keep - 1 >= 2 * keep);
        assert((n + keep - 1) / keep >= 2);
    }
    assert(1 <= (n + step - 1) / step < n) by (nonlinear_arith)
        requires
            step >= 2,
            n >= 2,
    {
        assert(step * ((n + step - 1) / step) <= n + step - 1);
        assert((n + step - 1) / step >= 1);
        let c = (n + step - 1) / step;
        if c >= n {
            assert(step * c >= 2 * n);
            assert(step * c >= step * n);
            assert(step * n <= n + step - 1);
            assert((step - 1) * (n - 1) <= 0);
        }
    }
}

/// Keeps the frames at the positions that are multiples of `step`.
pub fn take_every_nth(frames: &Vec<Frame>, step: usize) -> (out: Vec<Frame>)
    requires
        step >= 1,
    ensures
        frame_views(out@) == every_nth(frame_views(frames@), step as int),
{
    let n: usize = frames.len();
    let ghost views = frame_views(frames@);
    let mut out: Vec<Frame> = Vec::new();
    let mut position: usize = 0;
    let mut k: usize = 0;
    assert(frame_views(out@) =~= Seq::new(0, |j: int| views[j * step]));
    while position < n
        invariant
            step >= 1,
            n == frames.len(),
            views == frame_views(frames@),
            position == k * step || (position == n && k * step >= n),
            k == 0 || (k - 1) * step < n,
            k <= n,
            frame_views(out@) == Seq::new(k as nat, |j: int| views[j * step]),
        decreases n - position,
    {
        let ghost sofar = frame_views(out@);
        out.push(frames[position].clone());
        assert((k + 1) * step == k * step + step && k * step >= k) by (nonlinear_arith)
            requires
                step >= 1,
                k >= 0,
        ;
        assert(frame_views(out@) =~= sofar.push(views[position as int]));
        assert(frame_views(out@) =~= Seq::new((k + 1) as nat, |j: int| views[j * step]));
        if n - position <= step {
            position = n;
        } else {
            position = position + step;
        }
        k = k + 1;
    }
    proof {
        let count = ceil_div(n as int, step as int);
        assert(count == k) by (nonlinear_arith)
            requires
                count == (n + step - 1) / (step as int),
                step >= 1,
                k * step >= n,
                k == 0 || (k - 1) * step < n,
                n >= 0,
                k >= 0,
        {
            if k == 0 {
                assert(n == 0);
                assert((step - 1) / (step as int) == 0);
            } else {
                let x = n + step - 1;
                assert(k * step <= x);
                assert(x < (k + 1) * step);
                assert(x / (step as int) == k) by {
                    lemma_quotient_between(x, step as int, k as int);
                }
            }
        }
    }
    out
}

/// A number between `q * d` and `(q + 1) * d` has the quotient `q`.
proof fn lemma_quotient_between(x: int, d: int, q: int)
    requires
        d > 0,
        q * d <= x < (q + 1) * d,
    ensures
        x / d == q,
{
    lemma_fundamental_div_mod(x, d);
    let (a, r) = (x / d, x % d);
    assert(a == q) by (nonlinear_arith)
        requires
            x == d * a + r,
            0 <= r < d,
            q * d <= x < (q + 1) * d,
            d > 0,
    {
        if a < q {
            assert(d * a + d <= d * q);
        }
        if a > q {
            assert(d * a >= d * q + d);
        }
    }
}

/// Plays the animation `factor` times as fast.
///
/// Fails on a factor that is not greater than zero, and then changes nothing.
pub fn run(gif: &mut Gif, factor: Ratio) -> (outcome: Result<(), Error>)
    ensures
        outcome is Ok <==> factor.is_positive(),
        outcome is Ok ==> final(gif)@ == (GifView {
            frames: sped_up(old(gif)@.frames, factor),
            ..old(gif)@
        }),
        outcome is Err ==> outcome == Err::<(), Error>(Error::InvalidParameter) && final(gif)@
            == old(gif)@,
        old(gif).wf() ==> final(gif).wf(),
{
    if factor.num == 0 || factor.den == 0 {
        return Err(Error::InvalidParameter);
    }
    let ghost before = gif@.frames;
    let n: usize = gif.frames.len();
    // Beyond this multiplier every delay is at its limit already.
    let limit: u128 = 0x2_0000_0000_0000_0000_0000;
    let mul: u128 = if factor.den > limit {
        limit
    } else {
        factor.den
    };
    proof {
        assert forall|j: int| 0 <= j < before.len() implies scaled_delay(
            (#[trigger] before[j]).delay as int,
            mul as int,
            factor.num as int,
        ) == scaled_delay(before[j].delay as int, factor.den as int, factor.num as int) by {
            if factor.den > limit {
                lemma_scaled_delay_saturates(
                    before[j].delay as int,
                    mul as int,
                    factor.num as int,
                );
                lemma_scaled_delay_saturates(
                    before[j].delay as int,
                    factor.den as int,
                    factor.num as int,
                );
            }
        }
        assert(retimed(before, mul as int, factor.num as int) =~= retimed(
            before,
            factor.den as int,
            factor.num as int,
        ));
    }
    let mut frames = retime(&gif.frames, mul, factor.num as u128);
    if n > 0 && factor.den < 0x4000_0000_0000_0000 && factor.num as u128 > 4 * factor.den {
        assert(n * factor.den <= 0xffff_ffff_ffff_ffff * 0x4000_0000_0000_0000) by (nonlinear_arith)
            requires
                n <= 0xffff_ffff_ffff_ffff,
                factor.den <= 0x4000_0000_0000_0000,
        ;
        let share: u128 = ceil_quotient((n as u128) * factor.den, factor.num as u128);
        let keep: u128 = if share < 1 {
            1
        } else {
            share
        };
        proof {
            lemma_stride_range(n as int, factor);
        }
        let step: u128 = ceil_quotient(n as u128, keep);
        frames = take_every_nth(&frames, step as usize);
    }
    gif.frames = frames;
    proof {
        if old(gif).wf() {
            assert forall|j: int| 0 <= j < gif@.frames.len() implies (#[trigger] gif@.frames[j]).wf() by {
                let timed = retimed(before, factor.den as int, factor.num as int);
                if factor.exceeds(4) && before.len() > 0 {
                    let step = stride(before.len() as int, factor);
                    lemma_stride_range(n as int, factor);
                    lemma_nth_in_range(j, step, n as int);
                    assert(before[j * step].wf());
                } else {
                    assert(before[j].wf());
                }
            }
        }
    }
    Ok(())
}

/// The `k`-th multiple of `step` is a position among `n` frames when `k` is
/// below `n / step` rounded up.
proof fn lemma_nth_in_range(k: int, step: int, n: int)
    requires
        step >= 1,
        0 <= k < ceil_div(n, step),
    ensures
        0 <= k * step < n,
{
    let c = (n + step - 1) / step;
    assert(0 <= k * step < n) by (nonlinear_arith)
        requires
            step >= 1,
            0 <= k < c,
            c == (n + step - 1) / step,
    {
        assert(step * c <= n + step - 1);
        assert(k + 1 <= c);
        assert(step * (k + 1) <= step * c);
        assert(step * k + step <= n + step - 1);
    }
}

} // verus!
