//! Dropping frames at evenly spaced positions.

use vstd::prelude::*;
use vstd::arithmetic::div_mod::lemma_div_pos_is_pos;
use vstd::arithmetic::div_mod::lemma_multiply_divide_lt;
use crate::model::frame_views;
use crate::model::total_delay;
use crate::model::Frame;
use crate::model::FrameView;
use crate::model::Gif;
use crate::model::GifView;
use crate::timing::ceil_div;
use crate::timing::ceil_quotient;
use crate::timing::retime;
use crate::timing::retimed;
use crate::timing::sum_delays;
use crate::timing::Ratio;

verus! {

/// Number of frames that are left of `n` when the share `keep` is kept:
/// `n * keep`, rounded up.
pub open spec fn target_count(n: int, keep: Ratio) -> int {
    ceil_div(n * keep.num, keep.den as int)
}

/// Resampling `n` frames to the share `keep` drops at least one frame. It does
/// so when `keep` lies strictly between zero and one and the number of frames
/// to keep is neither zero nor `n`.
pub open spec fn resamples(n: int, keep: Ratio) -> bool {
    keep.is_proper() && 0 < target_count(n, keep) < n
}

/// The `target` frames picked at evenly spaced positions: the `k`-th is the
/// frame at position `k * n / target`, rounded down.
pub open spec fn picked(frames: Seq<FrameView>, target: int) -> Seq<FrameView> {
    Seq::new(target as nat, |k: int| frames[(k * frames.len()) / target])
}

/// The frames after resampling to the share `keep`.
///
/// The picked frames have their delays rescaled by the play time of all frames
/// over the play time of the picked ones, so that the animation lasts as long
/// as before. Picked frames that last no time at all are not rescaled.
pub open spec fn resampled(frames: Seq<FrameView>, keep: Ratio) -> Seq<FrameView> {
    if !resamples(frames.len() as int, keep) {
        frames
    } else {
        let chosen = picked(frames, target_count(frames.len() as int, keep));
        if total_delay(chosen) == 0 {
            chosen
        } else {
            retimed(chosen, total_delay(frames) as int, total_delay(chosen) as int)
        }
    }
}

/// Resampling never adds a frame, and a share outside of (0, 1) changes nothing.
pub proof fn lemma_resampled_count(frames: Seq<FrameView>, keep: Ratio)
    ensures
        resampled(frames, keep).len() <= frames.len(),
        !keep.is_proper() ==> resampled(frames, keep) == frames,
        resamples(frames.len() as int, keep) ==> resampled(frames, keep).len() == target_count(
            frames.len() as int,
            keep,
        ),
{
}

/// Position `k * n / target` is a position among `n` frames when `k < target`.
proof fn lemma_pick_in_range(k: int, n: int, target: int)
    requires
        0 <= k < target,
        0 < n,
    ensures
        0 <= (k * n) / target < n,
        0 <= k * n <= target * n,
{
    assert(0 <= k * n < target * n) by (nonlinear_arith)
        requires
            0 <= k < target,
            0 < n,
    ;
    lemma_div_pos_is_pos(k * n, target);
    lemma_multiply_divide_lt(k * n, target, n);
}

/// Drops frames at evenly spaced positions until the share `keep` of them is
/// left, and stretches the delays of those so that the play time stays.
pub fn reduce_frame_count(gif: &mut Gif, keep: Ratio)
    ensures
        final(gif)@ == (GifView { frames: resampled(old(gif)@.frames, keep), ..old(gif)@ }),
        final(gif)@.frames.len() <= old(gif)@.frames.len(),
        old(gif).wf() ==> final(gif).wf(),
{
    let ghost before = gif@.frames;
    let n: usize = gif.frames.len();
    if keep.den == 0 || keep.num == 0 || keep.num as u128 >= keep.den {
        return ;
    }
    assert(n * keep.num <= 0xffff_ffff_ffff_ffff * 0xffff_ffff_ffff_ffff) by (nonlinear_arith)
        requires
            n <= 0xffff_ffff_ffff_ffff,
            keep.num <= 0xffff_ffff_ffff_ffff,
    ;
    let wanted: u128 = ceil_quotient((n as u128) * (keep.num as u128), keep.den);
    if wanted >= n as u128 || wanted == 0 {
        return ;
    }
    let target: usize = wanted as usize;
    let mut chosen: Vec<Frame> = Vec::new();
    let mut k: usize = 0;
    while k < target
        invariant
            k <= target,
            0 < target < n,
            n == gif.frames.len(),
            gif@.frames == before,
            chosen@.len() == k,
            forall|j: int|
                0 <= j < k ==> (#[trigger] chosen@[j])@ == before[(j * before.len()) / (target as int)],
        decreases target - k,
    {
        proof {
            lemma_pick_in_range(k as int, n as int, target as int);
            assert(target * n <= 0xffff_ffff_ffff_ffff * 0xffff_ffff_ffff_ffff) by (nonlinear_arith)
                requires
                    target <= 0xffff_ffff_ffff_ffff,
                    n <= 0xffff_ffff_ffff_ffff,
            ;
        }
        let position: u128 = ((k as u128) * (n as u128)) / (target as u128);
        chosen.push(gif.frames[position as usize].clone());
        k = k + 1;
    }
    assert(frame_views(chosen@) =~= picked(before, target as int));
    let original_duration: u128 = sum_delays(&gif.frames);
    let new_duration: u128 = sum_delays(&chosen);
    if new_duration > 0 {
        assert(n * 0xffff <= 0xffff_ffff_ffff_ffff_ffff_ffff && target * 0xffff
            <= 0xffff_ffff_ffff_ffff_ffff_ffff);
        chosen = retime(&chosen, original_duration, new_duration);
    }
    gif.frames = chosen;
    proof {
        if old(gif).wf() {
            assert forall|j: int| 0 <= j < gif@.frames.len() implies (#[trigger] gif@.frames[j]).wf() by {
                lemma_pick_in_range(j, n as int, target as int);
                assert(before[(j * before.len()) / (target as int)].wf());
            }
        }
    }
}

} // verus!
