//! The in-memory model of an animated image: frames and the sequence that owns them.

use vstd::prelude::*;
use crate::error::Error;

verus! {

/// What happens to the canvas after a frame has been shown.
#[derive(Debug, Clone, Copy, PartialEq, Eq, Structural)]
pub enum DisposalMethod {
    /// The canvas stays as the frame left it.
    Keep,
    /// The canvas is cleared to fully transparent.
    RestoreBackground,
    /// The canvas goes back to what it was before the frame was drawn.
    RestorePrevious,
    /// Nothing is asked for; handled like `Keep`.
    Unspecified,
}

/// The mathematical value of a [`Frame`].
pub struct FrameView {
    pub data: Seq<u8>,
    pub width: nat,
    pub height: nat,
    pub delay: nat,
    pub transparent: bool,
    pub disposal: DisposalMethod,
}

impl FrameView {
    /// Number of pixels that the declared dimensions span.
    pub open spec fn pixel_count(self) -> nat {
        self.width * self.height
    }

    /// The buffer holds exactly four bytes for each pixel of the declared dimensions.
    pub open spec fn wf(self) -> bool {
        self.data.len() == self.pixel_count() * 4
    }
}

/// One step of an animation: an RGBA buffer with its timing and disposal.
#[derive(Debug)]
pub struct Frame {
    /// RGBA pixel data, four bytes per pixel, row-major.
    pub data: Vec<u8>,
    /// Width in pixels.
    pub width: u16,
    /// Height in pixels.
    pub height: u16,
    /// Display time in units of 10 ms.
    pub delay: u16,
    /// Whether the frame was decoded with transparent pixels.
    pub transparent: bool,
    /// How the canvas is prepared for the next frame.
    pub disposal: DisposalMethod,
}

impl View for Frame {
    type V = FrameView;

    open spec fn view(&self) -> FrameView {
        FrameView {
            data: self.data@,
            width: self.width as nat,
            height: self.height as nat,
            delay: self.delay as nat,
            transparent: self.transparent,
            disposal: self.disposal,
        }
    }
}

impl Clone for Frame {
    fn clone(&self) -> (res: Self)
        ensures
            res@ == self@,
    {
        Frame {
            data: self.data.clone(),
            width: self.width,
            height: self.height,
            delay: self.delay,
            transparent: self.transparent,
            disposal: self.disposal,
        }
    }
}

impl Frame {
    /// The buffer length agrees with the declared dimensions.
    pub open spec fn wf(&self) -> bool {
        self@.wf()
    }

    /// A fully transparent frame of the given size, shown for 100 ms.
    pub fn new(width: u16, height: u16) -> (frame: Self)
        requires
            width * height * 4 <= usize::MAX,
        ensures
            frame@ == (FrameView {
                data: Seq::new((width * height * 4) as nat, |i: int| 0u8),
                width: width as nat,
                height: height as nat,
                delay: 10,
                transparent: false,
                disposal: DisposalMethod::Keep,
            }),
            frame.wf(),
    {
        assert(width * height <= width * height * 4) by (nonlinear_arith);
        let pixel_count: usize = (width as usize) * (height as usize);
        let data: Vec<u8> = vec![0u8; pixel_count * 4];
        assert(data@ =~= Seq::new((width * height * 4) as nat, |i: int| 0u8));
        Frame { data, width, height, delay: 10, transparent: false, disposal: DisposalMethod::Keep }
    }

    /// Wraps an RGBA buffer whose length is `width * height * 4`; shown for 100 ms.
    pub fn from_rgba(data: Vec<u8>, width: u16, height: u16) -> (frame: Self)
        requires
            data@.len() == width * height * 4,
        ensures
            frame@ == (FrameView {
                data: data@,
                width: width as nat,
                height: height as nat,
                delay: 10,
                transparent: false,
                disposal: DisposalMethod::Keep,
            }),
            frame.wf(),
    {
        Frame { data, width, height, delay: 10, transparent: false, disposal: DisposalMethod::Keep }
    }

    /// Wraps an RGBA buffer if its length is `width * height * 4`, and refuses it
    /// otherwise.
    pub fn checked_from_rgba(data: Vec<u8>, width: u16, height: u16) -> (outcome: Result<Self, Error>)
        ensures
            outcome is Ok <==> data@.len() == width * height * 4,
            outcome matches Ok(frame) ==> frame@ == (FrameView {
                data: data@,
                width: width as nat,
                height: height as nat,
                delay: 10,
                transparent: false,
                disposal: DisposalMethod::Keep,
            }),
            outcome matches Err(e) ==> e == Error::DimensionMismatch,
    {
        let frame = Frame {
            data,
            width,
            height,
            delay: 10,
            transparent: false,
            disposal: DisposalMethod::Keep,
        };
        if frame.is_well_formed() {
            Ok(frame)
        } else {
            Err(Error::DimensionMismatch)
        }
    }

    /// Tells whether the buffer length agrees with the declared dimensions.
    pub fn is_well_formed(&self) -> (ok: bool)
        ensures
            ok == self.wf(),
    {
        assert(self.width * self.height <= 0xffff * 0xffff) by (nonlinear_arith)
            requires
                self.width <= 0xffff,
                self.height <= 0xffff,
        ;
        let pixels: u64 = (self.width as u64) * (self.height as u64);
        self.data.len() as u64 == pixels * 4
    }
}

/// Views of the frames of a sequence, in playback order.
pub open spec fn frame_views(frames: Seq<Frame>) -> Seq<FrameView> {
    frames.map_values(|f: Frame| f@)
}

/// Sum of the delays of a run of frames.
pub open spec fn total_delay(frames: Seq<FrameView>) -> nat
    decreases frames.len(),
{
    if frames.len() == 0 {
        0
    } else {
        total_delay(frames.drop_last()) + frames.last().delay
    }
}

/// Appending a frame adds its delay to the sum.
pub proof fn lemma_total_delay_push(frames: Seq<FrameView>, frame: FrameView)
    ensures
        total_delay(frames.push(frame)) == total_delay(frames) + frame.delay,
{
    assert(frames.push(frame).drop_last() =~= frames);
}

/// The mathematical value of a [`Gif`].
pub struct GifView {
    pub frames: Seq<FrameView>,
    pub width: nat,
    pub height: nat,
    pub global_palette: Option<Seq<[u8; 3]>>,
    pub loop_count: nat,
}

impl GifView {
    /// Every frame's buffer agrees with its declared dimensions.
    pub open spec fn wf(self) -> bool {
        forall|i: int| 0 <= i < self.frames.len() ==> (#[trigger] self.frames[i]).wf()
    }

    /// Sum of all frame delays, in units of 10 ms.
    pub open spec fn duration(self) -> nat {
        total_delay(self.frames)
    }
}

/// An animated image: its frames in playback order and the canvas they are shown on.
#[derive(Debug)]
pub struct Gif {
    /// Frames in playback order.
    pub frames: Vec<Frame>,
    /// Canvas width in pixels.
    pub width: u16,
    /// Canvas height in pixels.
    pub height: u16,
    /// Shared palette of RGB triples, if there is one.
    pub global_palette: Option<Vec<[u8; 3]>>,
    /// How often the animation repeats; 0 repeats forever.
    pub loop_count: u16,
}

impl View for Gif {
    type V = GifView;

    open spec fn view(&self) -> GifView {
        GifView {
            frames: frame_views(self.frames@),
            width: self.width as nat,
            height: self.height as nat,
            global_palette: match self.global_palette {
                Some(p) => Some(p@),
                None => None,
            },
            loop_count: self.loop_count as nat,
        }
    }
}

impl Gif {
    /// Every frame's buffer agrees with its declared dimensions.
    pub open spec fn wf(&self) -> bool {
        self@.wf()
    }

    /// An empty sequence with no canvas yet, repeating forever.
    pub fn new() -> (gif: Self)
        ensures
            gif@ == (GifView {
                frames: Seq::empty(),
                width: 0,
                height: 0,
                global_palette: None,
                loop_count: 0,
            }),
            gif.wf(),
    {
        let gif = Gif {
            frames: Vec::new(),
            width: 0,
            height: 0,
            global_palette: None,
            loop_count: 0,
        };
        assert(gif@.frames =~= Seq::empty());
        gif
    }

    /// Appends a frame. The first frame added gives its width and its height to
    /// a canvas that has none yet; a side of the canvas that is set already stays.
    pub fn add_frame(&mut self, frame: Frame)
        ensures
            final(self)@.frames == old(self)@.frames.push(frame@),
            final(self)@.width == if old(self)@.frames.len() == 0 && old(self)@.width == 0 {
                frame@.width
            } else {
                old(self)@.width
            },
            final(self)@.height == if old(self)@.frames.len() == 0 && old(self)@.height == 0 {
                frame@.height
            } else {
                old(self)@.height
            },
            final(self)@.global_palette == old(self)@.global_palette,
            final(self)@.loop_count == old(self)@.loop_count,
            final(self)@.duration() == old(self)@.duration() + frame@.delay,
            old(self).wf() && frame.wf() ==> final(self).wf(),
    {
        if self.frames.len() == 0 {
            if self.width == 0 {
                self.width = frame.width;
            }
            if self.height == 0 {
                self.height = frame.height;
            }
        }
        proof {
            lemma_total_delay_push(self@.frames, frame@);
        }
        self.frames.push(frame);
        assert(self@.frames =~= old(self)@.frames.push(frame@));
    }

    /// Number of frames.
    pub fn frame_count(&self) -> (n: usize)
        ensures
            n == self@.frames.len(),
    {
        self.frames.len()
    }

    /// Sum of all frame delays if it fits in 32 bits.
    pub fn checked_total_duration(&self) -> (total: Option<u32>)
        ensures
            total == if self@.duration() <= u32::MAX {
                Some(self@.duration() as u32)
            } else {
                None::<u32>
            },
    {
        let mut sum: u32 = 0;
        let mut i: usize = 0;
        while i < self.frames.len()
            invariant
                i <= self.frames.len(),
                sum == total_delay(self@.frames.take(i as int)),
            decreases self.frames.len() - i,
        {
            let delay: u32 = self.frames[i].delay as u32;
            proof {
                let upto = self@.frames.take(i as int + 1);
                assert(upto.drop_last() =~= self@.frames.take(i as int));
                assert(upto.last() == self.frames[i as int]@);
                lemma_total_delay_prefix(self@.frames, i as int + 1);
            }
            if delay > u32::MAX - sum {
                return None;
            }
            sum = sum + delay;
            i = i + 1;
        }
        assert(self@.frames.take(i as int) =~= self@.frames);
        Some(sum)
    }

    /// Sum of all frame delays, in units of 10 ms.
    pub fn total_duration(&self) -> (total: u32)
        requires
            self@.duration() <= u32::MAX,
        ensures
            total == self@.duration(),
    {
        match self.checked_total_duration() {
            Some(total) => total,
            None => 0,
        }
    }

    /// Tells whether every frame's buffer agrees with its declared dimensions.
    pub fn is_well_formed(&self) -> (ok: bool)
        ensures
            ok == self.wf(),
    {
        let mut i: usize = 0;
        while i < self.frames.len()
            invariant
                i <= self.frames.len(),
                forall|j: int| 0 <= j < i ==> (#[trigger] self@.frames[j]).wf(),
            decreases self.frames.len() - i,
        {
            if !self.frames[i].is_well_formed() {
                assert(!self@.frames[i as int].wf());
                return false;
            }
            i = i + 1;
        }
        true
    }
}

impl Default for Gif {
    fn default() -> (gif: Self)
        ensures
            gif@ == (GifView {
                frames: Seq::empty(),
                width: 0,
                height: 0,
                global_palette: None,
                loop_count: 0,
            }),
    {
        Gif::new()
    }
}

/// The sum over a prefix never exceeds the sum over the whole run.
pub proof fn lemma_total_delay_prefix(frames: Seq<FrameView>, n: int)
    requires
        0 <= n <= frames.len(),
    ensures
        total_delay(frames.take(n)) <= total_delay(frames),
    decreases frames.len() - n,
{
    if n < frames.len() {
        lemma_total_delay_prefix(frames, n + 1);
        assert(frames.take(n + 1).drop_last() =~= frames.take(n));
    } else {
        assert(frames.take(n) =~= frames);
    }
}

} // verus!
