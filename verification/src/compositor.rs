//! Rebuilds the full canvas that each frame of an animation shows.
//!
//! A partial frame covers only a centred rectangle of the canvas. Drawing replaces
//! canvas pixels by the frame's opaque pixels and leaves the others as they were;
//! nothing is blended. After a frame is shown its disposal decides which canvas the
//! next frame is drawn on.

use vstd::prelude::*;
use vstd::arithmetic::div_mod::lemma_fundamental_div_mod;
use vstd::arithmetic::div_mod::lemma_fundamental_div_mod_converse;
use crate::model::DisposalMethod;
use crate::model::Frame;
use crate::model::FrameView;
use crate::model::GifView;

verus! {

/// A fully transparent canvas: every byte is zero.
pub open spec fn blank_canvas(width: nat, height: nat) -> Seq<u8> {
    Seq::new(width * height * 4, |i: int| 0u8)
}

/// Left (or top) edge that centres a span of `inner` pixels inside `outer` pixels.
pub open spec fn center_offset(outer: nat, inner: nat) -> int {
    (outer - inner) / 2
}

/// Column, inside a frame placed at `left`, of the pixel that canvas byte `i` belongs to.
pub open spec fn source_col(i: int, canvas_width: int, left: int) -> int {
    (i / 4) % canvas_width - left
}

/// Row, inside a frame placed at `top`, of the pixel that canvas byte `i` belongs to.
pub open spec fn source_row(i: int, canvas_width: int, top: int) -> int {
    (i / 4) / canvas_width - top
}

/// Canvas byte `i` after a `fw` x `fh` frame was drawn at (`left`, `top`): the
/// frame's byte where the frame covers the pixel with non-zero alpha, the old
/// canvas byte elsewhere.
pub open spec fn overlay_byte(
    canvas: Seq<u8>,
    canvas_width: int,
    src: Seq<u8>,
    fw: int,
    fh: int,
    left: int,
    top: int,
    i: int,
) -> u8 {
    let sx = source_col(i, canvas_width, left);
    let sy = source_row(i, canvas_width, top);
    if 0 <= sx < fw && 0 <= sy < fh && src[(sy * fw + sx) * 4 + 3] > 0 {
        src[(sy * fw + sx) * 4 + i % 4]
    } else {
        canvas[i]
    }
}

/// The canvas after a `fw` x `fh` frame was drawn on it at (`left`, `top`).
pub open spec fn overlay(
    canvas: Seq<u8>,
    canvas_width: int,
    src: Seq<u8>,
    fw: int,
    fh: int,
    left: int,
    top: int,
) -> Seq<u8> {
    Seq::new(canvas.len(), |i: int| overlay_byte(canvas, canvas_width, src, fw, fh, left, top, i))
}

/// Canvas byte `i` while drawing is under way: rows above `rows` are done, and of
/// row `rows` the columns left of `cols`.
pub open spec fn overlay_progress_byte(
    canvas: Seq<u8>,
    canvas_width: int,
    src: Seq<u8>,
    fw: int,
    fh: int,
    left: int,
    top: int,
    rows: int,
    cols: int,
    i: int,
) -> u8 {
    let sx = source_col(i, canvas_width, left);
    let sy = source_row(i, canvas_width, top);
    if sy < rows || (sy == rows && sx < cols) {
        overlay_byte(canvas, canvas_width, src, fw, fh, left, top, i)
    } else {
        canvas[i]
    }
}

/// A frame whose buffer is smaller than the canvas covers only part of it.
pub open spec fn is_partial(frame: FrameView, width: nat, height: nat) -> bool {
    frame.data.len() < width * height * 4
}

/// What is on screen while `frame` is shown, given the canvas it is drawn on.
pub open spec fn shown_pixels(canvas: Seq<u8>, width: nat, height: nat, frame: FrameView) -> Seq<u8> {
    if is_partial(frame, width, height) {
        overlay(
            canvas,
            width as int,
            frame.data,
            frame.width as int,
            frame.height as int,
            center_offset(width, frame.width),
            center_offset(height, frame.height),
        )
    } else {
        frame.data
    }
}

/// The frame as it is recorded after compositing: what it shows, at the size of
/// the canvas.
pub open spec fn composited_frame(canvas: Seq<u8>, width: nat, height: nat, frame: FrameView) -> FrameView {
    FrameView { data: shown_pixels(canvas, width, height, frame), width, height, ..frame }
}

/// The canvas handed to the next frame: what `disposal` makes of the canvas
/// `before` the frame was drawn and of what was `shown`.
pub open spec fn disposed(
    before: Seq<u8>,
    shown: Seq<u8>,
    disposal: DisposalMethod,
    width: nat,
    height: nat,
) -> Seq<u8> {
    match disposal {
        DisposalMethod::Keep => shown,
        DisposalMethod::RestoreBackground => blank_canvas(width, height),
        DisposalMethod::RestorePrevious => before,
        DisposalMethod::Unspecified => shown,
    }
}

/// The canvas after `frame` was shown on `canvas` and disposed of.
pub open spec fn canvas_after(canvas: Seq<u8>, width: nat, height: nat, frame: FrameView) -> Seq<u8> {
    disposed(canvas, shown_pixels(canvas, width, height, frame), frame.disposal, width, height)
}

/// The canvas that frame `k` is drawn on: blank for the first frame, and otherwise
/// what the frames before it left behind.
pub open spec fn canvas_before(frames: Seq<FrameView>, width: nat, height: nat, k: int) -> Seq<u8>
    decreases k,
{
    if k <= 0 {
        blank_canvas(width, height)
    } else {
        canvas_after(canvas_before(frames, width, height, k - 1), width, height, frames[k - 1])
    }
}

/// The frame fits on a canvas of the given size.
pub open spec fn fits(frame: FrameView, width: nat, height: nat) -> bool {
    frame.width <= width && frame.height <= height
}

/// Pixel (`x`, `y`) of a frame placed at (`left`, `top`) lands on the four canvas
/// bytes that start at `((top + y) * canvas_width + left + x) * 4`.
proof fn lemma_pixel_bytes(canvas_width: int, left: int, top: int, x: int, y: int, c: int)
    requires
        canvas_width > 0,
        0 <= left,
        0 <= top,
        0 <= x,
        0 <= y,
        left + x < canvas_width,
        0 <= c < 4,
    ensures
        source_col(((top + y) * canvas_width + left + x) * 4 + c, canvas_width, left) == x,
        source_row(((top + y) * canvas_width + left + x) * 4 + c, canvas_width, top) == y,
        (((top + y) * canvas_width + left + x) * 4 + c) % 4 == c,
{
    let p = (top + y) * canvas_width + left + x;
    assert((p * 4 + c) / 4 == p);
    assert(p == canvas_width * (top + y) + (left + x)) by (nonlinear_arith)
        requires
            p == (top + y) * canvas_width + left + x,
    ;
    lemma_fundamental_div_mod_converse(p, canvas_width, top + y, left + x);
}

/// A canvas byte that belongs to pixel (`x`, `y`) of the placed frame is one of the
/// four bytes of that pixel.
proof fn lemma_bytes_of_pixel(canvas_width: int, left: int, top: int, x: int, y: int, i: int)
    requires
        canvas_width > 0,
        0 <= i,
        source_col(i, canvas_width, left) == x,
        source_row(i, canvas_width, top) == y,
    ensures
        i == ((top + y) * canvas_width + left + x) * 4 + i % 4,
{
    let p = i / 4;
    lemma_fundamental_div_mod(p, canvas_width);
    assert(canvas_width * (p / canvas_width) == (top + y) * canvas_width) by (nonlinear_arith)
        requires
            p / canvas_width == top + y,
    ;
}

/// Offsets of pixel (`x`, `y`) in the frame buffer and in the canvas stay in bounds.
proof fn lemma_pixel_in_bounds(cw: int, ch: int, fw: int, fh: int, left: int, top: int, x: int, y: int)
    requires
        0 <= x < fw,
        0 <= y < fh,
        0 <= left,
        0 <= top,
        left + fw <= cw,
        top + fh <= ch,
    ensures
        0 <= (y * fw + x) * 4,
        (y * fw + x) * 4 + 4 <= fw * fh * 4,
        0 <= (top + y) * cw,
        (top + y) * cw <= cw * ch,
        0 <= ((top + y) * cw + left + x) * 4,
        ((top + y) * cw + left + x) * 4 + 4 <= cw * ch * 4,
        y * fw <= fw * fh,
{
    assert(y * fw + x + 1 <= fw * fh && 0 <= y * fw && y * fw <= fw * fh) by (nonlinear_arith)
        requires
            0 <= x < fw,
            0 <= y < fh,
    ;
    assert((top + y) * cw + left + x + 1 <= cw * ch && 0 <= (top + y) * cw && (top + y) * cw <= cw
        * ch) by (nonlinear_arith)
        requires
            0 <= left + x < cw,
            0 <= top + y < ch,
    ;
}

/// Draws `frame` centred on `canvas`: opaque pixels replace, transparent ones leave
/// the canvas untouched.
pub fn draw_centered(canvas: &mut Vec<u8>, width: u16, height: u16, frame: &Frame)
    requires
        old(canvas)@.len() == width * height * 4,
        frame.wf(),
        fits(frame@, width as nat, height as nat),
    ensures
        final(canvas)@ == overlay(
            old(canvas)@,
            width as int,
            frame@.data,
            frame@.width as int,
            frame@.height as int,
            center_offset(width as nat, frame@.width),
            center_offset(height as nat, frame@.height),
        ),
{
    let fw: usize = frame.width as usize;
    let fh: usize = frame.height as usize;
    let cw: usize = width as usize;
    let left: usize = ((width - frame.width) / 2) as usize;
    let top: usize = ((height - frame.height) / 2) as usize;
    let ghost before = canvas@;
    let ghost src = frame@.data;
    let mut y: usize = 0;
    while y < fh
        invariant
            y <= fh,
            fw == frame.width,
            fh == frame.height,
            cw == width,
            left == center_offset(width as nat, frame@.width),
            top == center_offset(height as nat, frame@.height),
            left + fw <= cw,
            top + fh <= height,
            src == frame@.data,
            frame.data.len() == fw * fh * 4,
            before.len() == cw * height * 4,
            canvas.len() == cw * height * 4,
            forall|i: int|
                0 <= i < before.len() ==> canvas@[i] == #[trigger] overlay_progress_byte(
                    before,
                    cw as int,
                    src,
                    fw as int,
                    fh as int,
                    left as int,
                    top as int,
                    y as int,
                    0,
                    i,
                ),
        decreases fh - y,
    {
        let mut x: usize = 0;
        while x < fw
            invariant
                x <= fw,
                y < fh,
                fw == frame.width,
                fh == frame.height,
                cw == width,
                left + fw <= cw,
                top + fh <= height,
                src == frame@.data,
                frame.data.len() == fw * fh * 4,
                before.len() == cw * height * 4,
                canvas.len() == cw * height * 4,
                forall|i: int|
                    0 <= i < before.len() ==> canvas@[i] == #[trigger] overlay_progress_byte(
                        before,
                        cw as int,
                        src,
                        fw as int,
                        fh as int,
                        left as int,
                        top as int,
                        y as int,
                        x as int,
                        i,
                    ),
            decreases fw - x,
        {
            proof {
                lemma_pixel_in_bounds(
                    cw as int,
                    height as int,
                    fw as int,
                    fh as int,
                    left as int,
                    top as int,
                    x as int,
                    y as int,
                );
            }
            let s: usize = (y * fw + x) * 4;
            let d: usize = ((top + y) * cw + left + x) * 4;
            let ghost mid = canvas@;
            if frame.data[s + 3] > 0 {
                canvas.set(d, frame.data[s]);
                canvas.set(d + 1, frame.data[s + 1]);
                canvas.set(d + 2, frame.data[s + 2]);
                canvas.set(d + 3, frame.data[s + 3]);
            }
            assert forall|i: int| 0 <= i < before.len() implies canvas@[i]
                == #[trigger] overlay_progress_byte(
                before,
                cw as int,
                src,
                fw as int,
                fh as int,
                left as int,
                top as int,
                y as int,
                x as int + 1,
                i,
            ) by {
                assert(mid[i] == overlay_progress_byte(
                    before,
                    cw as int,
                    src,
                    fw as int,
                    fh as int,
                    left as int,
                    top as int,
                    y as int,
                    x as int,
                    i,
                ));
                if d <= i < d + 4 {
                    lemma_pixel_bytes(cw as int, left as int, top as int, x as int, y as int, i - d);
                } else if source_col(i, cw as int, left as int) == x && source_row(
                    i,
                    cw as int,
                    top as int,
                ) == y {
                    lemma_bytes_of_pixel(cw as int, left as int, top as int, x as int, y as int, i);
                }
            }
            x = x + 1;
        }
        assert forall|i: int| 0 <= i < before.len() implies canvas@[i]
            == #[trigger] overlay_progress_byte(
            before,
            cw as int,
            src,
            fw as int,
            fh as int,
            left as int,
            top as int,
            y as int + 1,
            0,
            i,
        ) by {
            assert(canvas@[i] == overlay_progress_byte(
                before,
                cw as int,
                src,
                fw as int,
                fh as int,
                left as int,
                top as int,
                y as int,
                fw as int,
                i,
            ));
        }
        y = y + 1;
    }
    assert forall|i: int| 0 <= i < before.len() implies canvas@[i] == overlay_byte(
        before,
        cw as int,
        src,
        fw as int,
        fh as int,
        left as int,
        top as int,
        i,
    ) by {
        assert(canvas@[i] == overlay_progress_byte(
            before,
            cw as int,
            src,
            fw as int,
            fh as int,
            left as int,
            top as int,
            fh as int,
            0,
            i,
        ));
    }
    assert(canvas@ =~= overlay(
        before,
        cw as int,
        src,
        fw as int,
        fh as int,
        left as int,
        top as int,
    ));
}

/// Every frame fits on the canvas of the sequence.
pub open spec fn fits_canvas(gif: GifView) -> bool {
    forall|i: int| 0 <= i < gif.frames.len() ==> fits(#[trigger] gif.frames[i], gif.width, gif.height)
}

/// Some frame covers only part of the canvas.
pub open spec fn needs_compositing(gif: GifView) -> bool {
    exists|i: int| 0 <= i < gif.frames.len() && is_partial(#[trigger] gif.frames[i], gif.width, gif.height)
}

/// The sequence with every frame replaced by what it shows, at the size of the
/// canvas.
pub open spec fn composited(gif: GifView) -> GifView {
    GifView {
        frames: Seq::new(
            gif.frames.len(),
            |k: int|
                composited_frame(
                    canvas_before(gif.frames, gif.width, gif.height, k),
                    gif.width,
                    gif.height,
                    gif.frames[k],
                ),
        ),
        ..gif
    }
}

/// A frame that fits the canvas and is not partial spans the whole canvas.
pub proof fn lemma_full_frame_spans_canvas(frame: FrameView, width: nat, height: nat)
    requires
        frame.wf(),
        fits(frame, width, height),
        !is_partial(frame, width, height),
    ensures
        frame.data.len() == width * height * 4,
        width * height > 0 ==> frame.width == width && frame.height == height,
{
    let (fw, fh, w, h) = (frame.width as int, frame.height as int, width as int, height as int);
    assert(fw * fh <= w * h) by (nonlinear_arith)
        requires
            0 <= fw <= w,
            0 <= fh <= h,
    ;
    assert(w * h > 0 && fw * fh == w * h ==> fw == w && fh == h) by (nonlinear_arith)
        requires
            0 <= fw <= w,
            0 <= fh <= h,
    ;
}

/// The canvas keeps its size from frame to frame.
pub proof fn lemma_canvas_before_len(frames: Seq<FrameView>, width: nat, height: nat, k: int)
    requires
        0 <= k <= frames.len(),
        forall|i: int| 0 <= i < frames.len() ==> (#[trigger] frames[i]).wf(),
        forall|i: int| 0 <= i < frames.len() ==> fits(#[trigger] frames[i], width, height),
    ensures
        canvas_before(frames, width, height, k).len() == width * height * 4,
    decreases k,
{
    if k > 0 {
        lemma_canvas_before_len(frames, width, height, k - 1);
        let f = frames[k - 1];
        assert(f.wf() && fits(f, width, height));
        if !is_partial(f, width, height) {
            lemma_full_frame_spans_canvas(f, width, height);
        }
    }
}

/// After compositing every frame has the size of the canvas and a buffer that
/// agrees with it. A sequence without partial frames keeps its pixels.
/// Compositing a second time changes nothing.
pub proof fn lemma_composited_frames_span_canvas(gif: GifView)
    requires
        gif.wf(),
        fits_canvas(gif),
    ensures
        composited(gif).wf(),
        fits_canvas(composited(gif)),
        forall|i: int|
            0 <= i < composited(gif).frames.len() ==> (#[trigger] composited(gif).frames[i]).width
                == gif.width && composited(gif).frames[i].height == gif.height,
        !needs_compositing(gif) ==> forall|i: int|
            0 <= i < gif.frames.len() ==> (#[trigger] composited(gif).frames[i]).data
                == gif.frames[i].data,
        composited(composited(gif)) == composited(gif),
{
    let after = composited(gif);
    assert forall|k: int| 0 <= k < after.frames.len() implies (#[trigger] after.frames[k]).wf()
        && !is_partial(after.frames[k], gif.width, gif.height) by {
        let frame = gif.frames[k];
        assert(frame.wf() && fits(frame, gif.width, gif.height));
        lemma_canvas_before_len(gif.frames, gif.width, gif.height, k);
        if !is_partial(frame, gif.width, gif.height) {
            lemma_full_frame_spans_canvas(frame, gif.width, gif.height);
        }
    }
    assert forall|i: int| 0 <= i < gif.frames.len() && !needs_compositing(gif) implies (
    #[trigger] after.frames[i]).data == gif.frames[i].data by {
        assert(!is_partial(gif.frames[i], gif.width, gif.height));
    }
    assert(composited(after).frames =~= after.frames);
}

/// The canvas that is carried from one frame to the next.
pub struct Compositor {
    /// What the next frame is drawn on: `width * height * 4` bytes of RGBA.
    pub canvas: Vec<u8>,
    /// Canvas width in pixels.
    pub width: u16,
    /// Canvas height in pixels.
    pub height: u16,
}

impl Compositor {
    /// The canvas buffer has the size of the canvas.
    pub open spec fn wf(&self) -> bool {
        self.canvas@.len() == self.width * self.height * 4
    }

    /// A compositor with a fully transparent canvas.
    pub fn new(width: u16, height: u16) -> (compositor: Self)
        requires
            width * height * 4 <= usize::MAX,
        ensures
            compositor.wf(),
            compositor.width == width,
            compositor.height == height,
            compositor.canvas@ == blank_canvas(width as nat, height as nat),
    {
        assert(width * height <= width * height * 4) by (nonlinear_arith);
        let size: usize = (width as usize) * (height as usize) * 4;
        let canvas: Vec<u8> = vec![0u8; size];
        assert(canvas@ =~= blank_canvas(width as nat, height as nat));
        Compositor { canvas, width, height }
    }

    /// Shows one frame. Returns the frame as it is recorded, and leaves behind, as
    /// the frame's disposal asks, the canvas for the frame that follows.
    pub fn show(&mut self, frame: &Frame) -> (recorded: Frame)
        requires
            old(self).wf(),
            frame.wf(),
            fits(frame@, old(self).width as nat, old(self).height as nat),
        ensures
            final(self).wf(),
            final(self).width == old(self).width,
            final(self).height == old(self).height,
            recorded@ == composited_frame(
                old(self).canvas@,
                old(self).width as nat,
                old(self).height as nat,
                frame@,
            ),
            final(self).canvas@ == canvas_after(
                old(self).canvas@,
                old(self).width as nat,
                old(self).height as nat,
                frame@,
            ),
    {
        let restore: Option<Vec<u8>> = match frame.disposal {
            DisposalMethod::RestorePrevious => Some(self.canvas.clone()),
            _ => None,
        };
        let recorded = if frame.data.len() < self.canvas.len() {
            draw_centered(&mut self.canvas, self.width, self.height, frame);
            Frame {
                data: self.canvas.clone(),
                width: self.width,
                height: self.height,
                delay: frame.delay,
                transparent: frame.transparent,
                disposal: frame.disposal,
            }
        } else {
            proof {
                lemma_full_frame_spans_canvas(frame@, self.width as nat, self.height as nat);
            }
            self.canvas = frame.data.clone();
            Frame {
                data: frame.data.clone(),
                width: self.width,
                height: self.height,
                delay: frame.delay,
                transparent: frame.transparent,
                disposal: frame.disposal,
            }
        };
        match frame.disposal {
            DisposalMethod::Keep => {},
            DisposalMethod::Unspecified => {},
            DisposalMethod::RestoreBackground => {
                let blank = Compositor::new(self.width, self.height);
                self.canvas = blank.canvas;
            },
            DisposalMethod::RestorePrevious => {
                if let Some(previous) = restore {
                    self.canvas = previous;
                }
            },
        }
        recorded
    }
}

} // verus!
