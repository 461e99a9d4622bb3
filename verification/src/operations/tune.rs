//! Changing the canvas size of an animation.

use vstd::prelude::*;
use crate::compositor::canvas_before;
use crate::compositor::composited;
use crate::compositor::composited_frame;
use crate::compositor::fits;
use crate::compositor::fits_canvas;
use crate::compositor::is_partial;
use crate::compositor::lemma_composited_frames_span_canvas;
use crate::compositor::needs_compositing;
use crate::compositor::Compositor;
use crate::error::Error;
use crate::model::Frame;
use crate::model::FrameView;
use crate::model::Gif;
use crate::model::GifView;
use crate::timing::round_div;

verus! {

/// Tells whether some frame covers only part of the canvas.
pub fn has_partial_frame(gif: &Gif) -> (found: bool)
    requires
        gif.width * gif.height * 4 <= usize::MAX,
    ensures
        found == needs_compositing(gif@),
{
    assert(gif.width * gif.height <= gif.width * gif.height * 4) by (nonlinear_arith);
    let full: usize = (gif.width as usize) * (gif.height as usize) * 4;
    let mut i: usize = 0;
    while i < gif.frames.len()
        invariant
            i <= gif.frames.len(),
            full == gif.width * gif.height * 4,
            forall|j: int| 0 <= j < i ==> !is_partial(#[trigger] gif@.frames[j], gif@.width, gif@.height),
        decreases gif.frames.len() - i,
    {
        if gif.frames[i].data.len() < full {
            assert(is_partial(gif@.frames[i as int], gif@.width, gif@.height));
            return true;
        }
        i = i + 1;
    }
    false
}

/// Tells whether the sequence can be composited: every buffer agrees with its
/// dimensions, every frame fits on the canvas, and a canvas buffer can be
/// addressed on this machine.
pub fn can_composite(gif: &Gif) -> (ok: bool)
    ensures
        ok == (gif.wf() && fits_canvas(gif@) && gif.width * gif.height * 4 <= usize::MAX),
{
    if !is_addressable(gif.width, gif.width, gif.height) {
        return false;
    }
    let mut i: usize = 0;
    while i < gif.frames.len()
        invariant
            i <= gif.frames.len(),
            forall|j: int|
                0 <= j < i ==> (#[trigger] gif@.frames[j]).wf() && fits(
                    gif@.frames[j],
                    gif@.width,
                    gif@.height,
                ),
        decreases gif.frames.len() - i,
    {
        let frame = &gif.frames[i];
        if !frame.is_well_formed() || frame.width > gif.width || frame.height > gif.height {
            assert(!gif@.frames[i as int].wf() || !fits(
                gif@.frames[i as int],
                gif@.width,
                gif@.height,
            ));
            return false;
        }
        i = i + 1;
    }
    true
}

/// Replaces every frame by the full canvas that it shows.
///
/// Frames are drawn in playback order on a canvas that starts out transparent. A
/// partial frame is drawn centred; a full frame replaces the canvas. After each
/// frame its disposal prepares the canvas for the next one. Every frame has the
/// size of the canvas afterwards.
pub fn normalize_frames_composited(gif: &mut Gif)
    requires
        old(gif).wf(),
        fits_canvas(old(gif)@),
        old(gif).width * old(gif).height * 4 <= usize::MAX,
    ensures
        final(gif)@ == composited(old(gif)@),
        final(gif).wf(),
        fits_canvas(final(gif)@),
        forall|i: int|
            0 <= i < final(gif)@.frames.len() ==> (#[trigger] final(gif)@.frames[i]).width == old(gif).width && final(gif)@.frames[i].height == old(gif).height,
{
    proof {
        lemma_composited_frames_span_canvas(gif@);
    }
    let ghost before = gif@;
    let mut compositor = Compositor::new(gif.width, gif.height);
    let mut recorded: Vec<Frame> = Vec::new();
    let mut i: usize = 0;
    while i < gif.frames.len()
        invariant
            i <= gif.frames.len(),
            gif@ == before,
            gif.wf(),
            fits_canvas(gif@),
            compositor.wf(),
            compositor.width == gif.width,
            compositor.height == gif.height,
            compositor.canvas@ == canvas_before(before.frames, before.width, before.height, i as int),
            recorded@.len() == i,
            forall|j: int|
                0 <= j < i ==> (#[trigger] recorded@[j])@ == composited_frame(
                    canvas_before(before.frames, before.width, before.height, j),
                    before.width,
                    before.height,
                    before.frames[j],
                ),
        decreases gif.frames.len() - i,
    {
        assert(gif@.frames[i as int].wf());
        assert(fits(gif@.frames[i as int], gif@.width, gif@.height));
        let frame = compositor.show(&gif.frames[i]);
        recorded.push(frame);
        i = i + 1;
    }
    gif.frames = recorded;
    assert(gif@.frames =~= composited(before).frames);
}

/// The side that goes with `given` when the proportions `own : other` of the
/// canvas are kept: `given * other / own`, rounded to the nearest integer, but
/// at least 1.
pub open spec fn proportional(given: int, own: int, other: int) -> int {
    let exact = round_div(given * other, own);
    if exact < 1 {
        1
    } else {
        exact
    }
}

/// The canvas size that a resize to `width` and `height` asks for. A side that
/// is not given follows from the other so that the proportions of the canvas
/// stay. There is no such size when neither side is given, when a side is zero,
/// when a side is to follow from a canvas without extent, or when a side does
/// not fit in 16 bits.
pub open spec fn target_dimensions(
    canvas_width: int,
    canvas_height: int,
    width: Option<u32>,
    height: Option<u32>,
) -> Option<(int, int)> {
    let wanted: Option<(int, int)> = match (width, height) {
        (Some(w), Some(h)) => Some((w as int, h as int)),
        (Some(w), None) => if canvas_width > 0 {
            Some((w as int, proportional(w as int, canvas_width, canvas_height)))
        } else {
            None
        },
        (None, Some(h)) => if canvas_height > 0 {
            Some((proportional(h as int, canvas_height, canvas_width), h as int))
        } else {
            None
        },
        (None, None) => None,
    };
    match wanted {
        Some((w, h)) => if 1 <= w <= u16::MAX && 1 <= h <= u16::MAX {
            Some((w, h))
        } else {
            None
        },
        None => None,
    }
}

/// Works out the canvas size that a resize to `width` and `height` asks for.
pub fn compute_target_dimensions(
    canvas_width: u16,
    canvas_height: u16,
    width: Option<u32>,
    height: Option<u32>,
) -> (target: Option<(u16, u16)>)
    ensures
        match target_dimensions(canvas_width as int, canvas_height as int, width, height) {
            Some((w, h)) => target == Some((w as u16, h as u16)),
            None => target is None,
        },
{
    let wanted: Option<(u64, u64)> = match (width, height) {
        (Some(w), Some(h)) => Some((w as u64, h as u64)),
        (Some(w), None) => {
            if canvas_width > 0 {
                Some((w as u64, follow(w, canvas_width, canvas_height)))
            } else {
                None
            }
        },
        (None, Some(h)) => {
            if canvas_height > 0 {
                Some((follow(h, canvas_height, canvas_width), h as u64))
            } else {
                None
            }
        },
        (None, None) => None,
    };
    match wanted {
        Some((w, h)) => {
            if 1 <= w && w <= 0xffff && 1 <= h && h <= 0xffff {
                Some((w as u16, h as u16))
            } else {
                None
            }
        },
        None => None,
    }
}

/// Computes the side that goes with `given` when the proportions of the canvas
/// are kept.
fn follow(given: u32, own: u16, other: u16) -> (side: u64)
    requires
        own > 0,
    ensures
        side == proportional(given as int, own as int, other as int),
{
    assert(given * other <= 0xffff_ffff * 0xffff) by (nonlinear_arith)
        requires
            given <= 0xffff_ffff,
            other <= 0xffff,
    ;
    let doubled: u64 = 2 * ((given as u64) * (other as u64)) + own as u64;
    let exact: u64 = doubled / (2 * (own as u64));
    if exact < 1 {
        1
    } else {
        exact
    }
}

/// The pixels that `image::imageops::resize` with the triangle filter makes of
/// an RGBA image of `width` x `height` pixels when asked for `new_width` x
/// `new_height` pixels.
pub uninterp spec fn triangle_resized(
    pixels: Seq<u8>,
    width: int,
    height: int,
    new_width: int,
    new_height: int,
) -> Seq<u8>;

/// Calls `image::imageops::resize` with `FilterType::Triangle` on an RGBA image.
///
/// Trusted: the pixels returned depend on the five arguments alone, and there are
/// `new_width * new_height` of them, four bytes each. `resize` allocates a
/// buffer of `width * new_height` and one of `new_width * new_height` pixels
/// and panics when the length of either does not fit in `usize`.
#[verifier::external_body]
fn resize_triangle(pixels: &Vec<u8>, width: u16, height: u16, new_width: u16, new_height: u16) -> (out:
    Vec<u8>)
    requires
        pixels@.len() == width * height * 4,
        new_width * new_height * 4 <= usize::MAX,
        width * new_height * 4 <= usize::MAX,
    ensures
        out@ == triangle_resized(
            pixels@,
            width as int,
            height as int,
            new_width as int,
            new_height as int,
        ),
        out@.len() == new_width * new_height * 4,
{
    let source = image::RgbaImage::from_raw(u32::from(width), u32::from(height), pixels.clone())
        .expect("the buffer holds width * height pixels");
    image::imageops::resize(
        &source,
        u32::from(new_width),
        u32::from(new_height),
        image::imageops::FilterType::Triangle,
    ).into_raw()
}

/// A frame after it was resized to `width` x `height` pixels.
pub open spec fn resized_frame(frame: FrameView, width: int, height: int) -> FrameView {
    FrameView {
        data: triangle_resized(
            frame.data,
            frame.width as int,
            frame.height as int,
            width,
            height,
        ),
        width: width as nat,
        height: height as nat,
        ..frame
    }
}

/// A sequence after its canvas and every frame were resized to `width` x
/// `height` pixels.
pub open spec fn resized(gif: GifView, width: int, height: int) -> GifView {
    GifView {
        frames: gif.frames.map_values(|f: FrameView| resized_frame(f, width, height)),
        width: width as nat,
        height: height as nat,
        ..gif
    }
}

/// The buffers needed to resize from a canvas `canvas_width` wide to `width` x
/// `height` pixels can be addressed on this machine.
pub open spec fn addressable(canvas_width: int, width: int, height: int) -> bool {
    width * height * 4 <= usize::MAX && canvas_width * height * 4 <= usize::MAX
}

/// Tells whether the buffers needed for a resize can be addressed on this machine.
pub fn is_addressable(canvas_width: u16, width: u16, height: u16) -> (ok: bool)
    ensures
        ok == addressable(canvas_width as int, width as int, height as int),
{
    assert(width * height * 4 <= 0xffff * 0xffff * 4 && canvas_width * height * 4 <= 0xffff
        * 0xffff * 4 && 0 <= width * height && 0 <= canvas_width * height) by (nonlinear_arith)
        requires
            0 <= width <= 0xffff,
            0 <= height <= 0xffff,
            0 <= canvas_width <= 0xffff,
    ;
    let limit: u64 = usize::MAX as u64;
    (width as u64) * (height as u64) * 4 <= limit && (canvas_width as u64) * (height as u64) * 4
        <= limit
}

/// Resizes every frame, each from its own size, to `width` x `height` pixels.
pub fn resize_frames(gif: &mut Gif, width: u16, height: u16)
    requires
        old(gif).wf(),
        fits_canvas(old(gif)@),
        addressable(old(gif).width as int, width as int, height as int),
    ensures
        final(gif)@ == resized(old(gif)@, width as int, height as int),
        final(gif).wf(),
        fits_canvas(final(gif)@),
{
    let ghost before = gif@;
    let mut frames: Vec<Frame> = Vec::new();
    let mut i: usize = 0;
    while i < gif.frames.len()
        invariant
            i <= gif.frames.len(),
            gif@ == before,
            gif.wf(),
            fits_canvas(gif@),
            addressable(gif.width as int, width as int, height as int),
            frames@.len() == i,
            forall|j: int|
                0 <= j < i ==> (#[trigger] frames@[j])@ == resized_frame(
                    before.frames[j],
                    width as int,
                    height as int,
                ) && frames@[j].wf(),
        decreases gif.frames.len() - i,
    {
        let frame = &gif.frames[i];
        proof {
            assert(gif@.frames[i as int].wf());
            assert(fits(gif@.frames[i as int], gif@.width, gif@.height));
            assert(frame.width * height * 4 <= gif.width * height * 4) by (nonlinear_arith)
                requires
                    frame.width <= gif.width,
                    0 <= height,
            ;
        }
        let data = resize_triangle(&frame.data, frame.width, frame.height, width, height);
        frames.push(
            Frame {
                data,
                width,
                height,
                delay: frame.delay,
                transparent: frame.transparent,
                disposal: frame.disposal,
            },
        );
        i = i + 1;
    }
    gif.frames = frames;
    gif.width = width;
    gif.height = height;
    assert(gif@.frames =~= resized(before, width as int, height as int).frames);
}

/// The sequence after a resize to `width` and `height`: partial frames are
/// composited first, then every frame and the canvas are resized.
pub open spec fn tuned(gif: GifView, width: int, height: int) -> GifView {
    resized(composited(gif), width, height)
}

/// Resizes the animation. A side that is not given follows from the other so
/// that the proportions of the canvas stay.
///
/// Fails, and changes nothing, when [`target_dimensions`] has no size for the
/// request or when the buffers for that size cannot be addressed on this machine.
pub fn run(gif: &mut Gif, width: Option<u32>, height: Option<u32>) -> (outcome: Result<(), Error>)
    requires
        old(gif).wf(),
        fits_canvas(old(gif)@),
        old(gif).width * old(gif).height * 4 <= usize::MAX,
    ensures
        match target_dimensions(old(gif).width as int, old(gif).height as int, width, height) {
            Some((w, h)) => if addressable(old(gif).width as int, w, h) {
                outcome is Ok && final(gif)@ == tuned(old(gif)@, w, h)
            } else {
                outcome == Err::<(), Error>(Error::InvalidParameter) && final(gif)@ == old(gif)@
            },
            None => outcome == Err::<(), Error>(Error::InvalidParameter) && final(gif)@ == old(gif)@,
        },
        final(gif).wf(),
{
    let (new_width, new_height): (u16, u16) = match compute_target_dimensions(
        gif.width,
        gif.height,
        width,
        height,
    ) {
        Some(target) => target,
        None => {
            return Err(Error::InvalidParameter);
        },
    };
    if !is_addressable(gif.width, new_width, new_height) {
        return Err(Error::InvalidParameter);
    }
    normalize_frames_composited(gif);
    resize_frames(gif, new_width, new_height);
    Ok(())
}

} // verus!
