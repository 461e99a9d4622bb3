//! How different two frames look.

use vstd::prelude::*;
use crate::model::Frame;
use crate::model::FrameView;

verus! {

/// Distance between two channel values.
pub open spec fn abs_diff(a: u8, b: u8) -> int {
    if a >= b {
        a - b
    } else {
        b - a
    }
}

/// Difference of pixel `p` between two buffers: the channel distances over
/// R, G, B and A, added up and divided by four, rounding down.
pub open spec fn pixel_difference(a: Seq<u8>, b: Seq<u8>, p: int) -> int {
    (abs_diff(a[4 * p], b[4 * p]) + abs_diff(a[4 * p + 1], b[4 * p + 1]) + abs_diff(
        a[4 * p + 2],
        b[4 * p + 2],
    ) + abs_diff(a[4 * p + 3], b[4 * p + 3])) / 4
}

/// Pixel differences added up over the first `pixels` pixels.
pub open spec fn difference_sum(a: Seq<u8>, b: Seq<u8>, pixels: int) -> int
    decreases pixels,
{
    if pixels <= 0 {
        0
    } else {
        difference_sum(a, b, pixels - 1) + pixel_difference(a, b, pixels - 1)
    }
}

/// How different two frames look, from 0 (same) to 255.
///
/// Frames of different dimensions or buffer lengths are as different as can be.
/// Otherwise the score is the mean pixel difference, rounding down.
pub open spec fn frame_difference(a: FrameView, b: FrameView) -> int {
    if a.width != b.width || a.height != b.height || a.data.len() != b.data.len() {
        255
    } else if a.pixel_count() == 0 {
        0
    } else {
        difference_sum(a.data, b.data, a.pixel_count() as int) / (a.pixel_count() as int)
    }
}

/// The summed difference of `pixels` pixels lies between 0 and `255 * pixels`.
pub proof fn lemma_difference_sum_bounds(a: Seq<u8>, b: Seq<u8>, pixels: int)
    requires
        0 <= pixels,
    ensures
        0 <= difference_sum(a, b, pixels) <= 255 * pixels,
    decreases pixels,
{
    if pixels > 0 {
        lemma_difference_sum_bounds(a, b, pixels - 1);
    }
}

/// The score of any two frames lies between 0 and 255.
pub proof fn lemma_frame_difference_range(a: FrameView, b: FrameView)
    ensures
        0 <= frame_difference(a, b) <= 255,
{
    let n = a.pixel_count() as int;
    if a.width == b.width && a.height == b.height && a.data.len() == b.data.len() && n > 0 {
        lemma_difference_sum_bounds(a.data, b.data, n);
        let s = difference_sum(a.data, b.data, n);
        assert(0 <= s / n <= 255) by (nonlinear_arith)
            requires
                0 <= s <= 255 * n,
                n > 0,
        ;
    }
}

/// Two frames with the same dimensions and the same pixels score 0.
pub proof fn lemma_identical_frames_score_zero(a: FrameView, b: FrameView)
    requires
        a.width == b.width,
        a.height == b.height,
        a.data == b.data,
    ensures
        frame_difference(a, b) == 0,
{
    let n = a.pixel_count() as int;
    if n > 0 {
        lemma_same_pixels_sum_zero(a.data, n);
    }
}

/// A buffer differs from itself by nothing.
proof fn lemma_same_pixels_sum_zero(a: Seq<u8>, pixels: int)
    requires
        0 <= pixels,
    ensures
        difference_sum(a, a, pixels) == 0,
    decreases pixels,
{
    if pixels > 0 {
        lemma_same_pixels_sum_zero(a, pixels - 1);
    }
}

/// An all-0 frame and an all-255 frame of the same non-empty size score 255,
/// which is above 200.
pub proof fn lemma_black_and_white_score_high(a: FrameView, b: FrameView)
    requires
        a.wf(),
        b.wf(),
        a.width == b.width,
        a.height == b.height,
        a.pixel_count() > 0,
        forall|i: int| 0 <= i < a.data.len() ==> a.data[i] == 0,
        forall|i: int| 0 <= i < b.data.len() ==> b.data[i] == 255,
    ensures
        frame_difference(a, b) == 255,
        frame_difference(a, b) > 200,
{
    let n = a.pixel_count() as int;
    lemma_opposite_pixels_sum(a.data, b.data, n);
    assert((255 * n) / n == 255) by (nonlinear_arith)
        requires
            n > 0,
    ;
}

/// Where one buffer is all 0 and the other all 255, each pixel differs by 255.
proof fn lemma_opposite_pixels_sum(a: Seq<u8>, b: Seq<u8>, pixels: int)
    requires
        0 <= pixels,
        4 * pixels <= a.len(),
        4 * pixels <= b.len(),
        forall|i: int| 0 <= i < a.len() ==> a[i] == 0,
        forall|i: int| 0 <= i < b.len() ==> b[i] == 255,
    ensures
        difference_sum(a, b, pixels) == 255 * pixels,
    decreases pixels,
{
    if pixels > 0 {
        lemma_opposite_pixels_sum(a, b, pixels - 1);
    }
}

/// Scores how different two frames look, from 0 (same) to 255.
pub fn calculate_frame_difference(frame1: &Frame, frame2: &Frame) -> (score: u8)
    requires
        frame1.wf(),
        frame2.wf(),
    ensures
        score == frame_difference(frame1@, frame2@),
{
    if frame1.width != frame2.width || frame1.height != frame2.height {
        return 255;
    }
    if frame1.data.len() != frame2.data.len() {
        return 255;
    }
    assert(frame1.width * frame1.height <= 0xffff * 0xffff) by (nonlinear_arith)
        requires
            frame1.width <= 0xffff,
            frame1.height <= 0xffff,
    ;
    let pixel_count: u64 = (frame1.width as u64) * (frame1.height as u64);
    let mut total: u64 = 0;
    let mut p: usize = 0;
    while (p as u64) < pixel_count
        invariant
            p <= pixel_count,
            pixel_count == frame1@.pixel_count(),
            pixel_count <= 0xffff * 0xffff,
            frame1.data.len() == pixel_count * 4,
            frame2.data.len() == pixel_count * 4,
            total == difference_sum(frame1@.data, frame2@.data, p as int),
            total <= 255 * p,
        decreases pixel_count - p,
    {
        let base: usize = p * 4;
        let r: u64 = channel_distance(frame1.data[base], frame2.data[base]) as u64;
        let g: u64 = channel_distance(frame1.data[base + 1], frame2.data[base + 1]) as u64;
        let b: u64 = channel_distance(frame1.data[base + 2], frame2.data[base + 2]) as u64;
        let a: u64 = channel_distance(frame1.data[base + 3], frame2.data[base + 3]) as u64;
        total = total + (r + g + b + a) / 4;
        p = p + 1;
    }
    if pixel_count == 0 {
        return 0;
    }
    proof {
        lemma_frame_difference_range(frame1@, frame2@);
    }
    (total / pixel_count) as u8
}

/// Distance between two channel values.
pub fn channel_distance(a: u8, b: u8) -> (d: u8)
    ensures
        d == abs_diff(a, b),
{
    if a >= b {
        a - b
    } else {
        b - a
    }
}

} // verus!
