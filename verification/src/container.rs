//! What the toolkit hands to a GIF codec and what it makes of the codec's output.
//!
//! Reading and writing the container format is the codec's business. This module
//! holds the decisions on either side of it: how a decoded frame becomes a
//! [`Frame`], and with which settings a frame goes to the encoder.

use vstd::prelude::*;
use crate::compositor::center_offset;
use crate::compositor::fits;
use crate::model::frame_views;
use crate::model::DisposalMethod;
use crate::model::Frame;
use crate::model::FrameView;
use crate::model::Gif;
use crate::model::GifView;

verus! {

/// A delay of zero counts as one: no frame is shown for no time.
pub open spec fn normalized_delay(delay: u16) -> u16 {
    if delay == 0 {
        1
    } else {
        delay
    }
}

/// Raises a delay of zero to one.
pub fn normalize_delay(delay: u16) -> (normalized: u16)
    ensures
        normalized == normalized_delay(delay),
        normalized >= 1,
{
    if delay == 0 {
        1
    } else {
        delay
    }
}

/// The palette entries held by a flat run of R, G, B bytes. Bytes after the
/// last whole entry are dropped.
pub open spec fn palette_entries(flat: Seq<u8>) -> Seq<[u8; 3]> {
    Seq::new((flat.len() / 3) as nat, |k: int| [flat[3 * k], flat[3 * k + 1], flat[3 * k + 2]])
}

/// The flat run of R, G, B bytes of a palette.
pub open spec fn palette_bytes(palette: Seq<[u8; 3]>) -> Seq<u8> {
    Seq::new(palette.len() * 3, |i: int| palette[i / 3][i % 3])
}

/// Splits a flat run of R, G, B bytes into palette entries.
pub fn palette_from_bytes(flat: &Vec<u8>) -> (palette: Vec<[u8; 3]>)
    ensures
        palette@ == palette_entries(flat@),
{
    let count: usize = flat.len() / 3;
    let mut palette: Vec<[u8; 3]> = Vec::new();
    let mut k: usize = 0;
    while k < count
        invariant
            k <= count,
            count == flat.len() / 3,
            palette@.len() == k,
            forall|j: int|
                0 <= j < k ==> (#[trigger] palette@[j]) == [
                    flat@[3 * j],
                    flat@[3 * j + 1],
                    flat@[3 * j + 2],
                ],
        decreases count - k,
    {
        palette.push([flat[3 * k], flat[3 * k + 1], flat[3 * k + 2]]);
        k = k + 1;
    }
    assert(palette@ =~= palette_entries(flat@));
    palette
}

/// Lays the entries of a palette out as a flat run of R, G, B bytes.
pub fn palette_to_bytes(palette: &Vec<[u8; 3]>) -> (flat: Vec<u8>)
    ensures
        flat@ == palette_bytes(palette@),
{
    let mut flat: Vec<u8> = Vec::new();
    let mut k: usize = 0;
    while k < palette.len()
        invariant
            k <= palette.len(),
            flat@.len() == 3 * k,
            forall|i: int| 0 <= i < 3 * k ==> flat@[i] == (#[trigger] palette@[i / 3])[i % 3],
        decreases palette.len() - k,
    {
        let entry: [u8; 3] = palette[k];
        flat.push(entry[0]);
        flat.push(entry[1]);
        flat.push(entry[2]);
        k = k + 1;
    }
    assert(flat@ =~= palette_bytes(palette@));
    flat
}

/// The frame that a decoded image becomes: its delay is at least 1, and it
/// counts as transparent when the codec named a transparent colour.
pub open spec fn decoded_frame(
    data: Seq<u8>,
    width: u16,
    height: u16,
    delay: u16,
    transparent_index: Option<u8>,
    disposal: DisposalMethod,
) -> FrameView {
    FrameView {
        data,
        width: width as nat,
        height: height as nat,
        delay: normalized_delay(delay) as nat,
        transparent: transparent_index is Some,
        disposal,
    }
}

/// Turns what the codec decoded of one image into a frame.
pub fn frame_from_decoded(
    data: Vec<u8>,
    width: u16,
    height: u16,
    delay: u16,
    transparent_index: Option<u8>,
    disposal: DisposalMethod,
) -> (frame: Frame)
    ensures
        frame@ == decoded_frame(data@, width, height, delay, transparent_index, disposal),
        frame@.delay >= 1,
{
    Frame {
        data,
        width,
        height,
        delay: normalize_delay(delay),
        transparent: transparent_index.is_some(),
        disposal,
    }
}

/// Puts together what the codec decoded of a file: the canvas, the shared
/// palette if the file has one, and the frames in file order. The animation
/// repeats forever.
pub fn gif_from_decoded(width: u16, height: u16, palette: Option<Vec<u8>>, frames: Vec<Frame>) -> (gif:
    Gif)
    ensures
        gif@ == (GifView {
            frames: frame_views(frames@),
            width: width as nat,
            height: height as nat,
            global_palette: match palette {
                Some(flat) => Some(palette_entries(flat@)),
                None => None,
            },
            loop_count: 0,
        }),
{
    let global_palette = match palette {
        Some(flat) => Some(palette_from_bytes(&flat)),
        None => None,
    };
    Gif { frames, width, height, global_palette, loop_count: 0 }
}

/// How often the encoder is told to repeat the animation.
#[derive(Debug, Clone, Copy, PartialEq, Eq, Structural)]
pub enum Repeat {
    /// Without end.
    Infinite,
    /// This many times.
    Finite(u16),
}

/// A loop count of zero asks for endless repetition.
pub open spec fn repeat_of(loop_count: u16) -> Repeat {
    if loop_count == 0 {
        Repeat::Infinite
    } else {
        Repeat::Finite(loop_count)
    }
}

/// The settings with which one frame goes to the encoder.
#[derive(Debug, Clone, Copy, PartialEq, Eq, Structural)]
pub struct FrameSettings {
    /// Display time in units of 10 ms; at least 1.
    pub delay: u16,
    /// How the canvas is prepared for the next frame.
    pub disposal: DisposalMethod,
    /// Distance of the frame from the left edge of the canvas.
    pub left: u16,
    /// Distance of the frame from the top edge of the canvas.
    pub top: u16,
    /// The transparent colour index to set, if one is to be set.
    pub transparent_index: Option<u8>,
}

/// Pixel `p` of the buffer is the first whose alpha is zero.
pub open spec fn is_first_transparent(data: Seq<u8>, p: int) -> bool {
    &&& 0 <= p
    &&& 4 * p + 3 < data.len()
    &&& alpha_of(data, p) == 0
    &&& forall|q: int| 0 <= q < p ==> #[trigger] alpha_of(data, q) != 0
}

/// The alpha byte of pixel `p`.
pub open spec fn alpha_of(data: Seq<u8>, p: int) -> u8 {
    data[4 * p + 3]
}

/// The position of the first pixel whose alpha is zero, if there is such a pixel.
pub open spec fn first_transparent(data: Seq<u8>) -> Option<int> {
    if exists|p: int| is_first_transparent(data, p) {
        Some(choose|p: int| is_first_transparent(data, p))
    } else {
        None
    }
}

/// Only one pixel is the first whose alpha is zero.
pub proof fn lemma_first_transparent_is_unique(data: Seq<u8>, p: int, q: int)
    requires
        is_first_transparent(data, p),
        is_first_transparent(data, q),
    ensures
        p == q,
{
    if p < q {
        assert(alpha_of(data, p) != 0);
    }
    if q < p {
        assert(alpha_of(data, q) != 0);
    }
}

/// The transparent index that is set for a frame: for a frame that counts as
/// transparent, the position of its first pixel with an alpha of zero, modulo
/// 256. None is set when the frame does not count as transparent or has no
/// such pixel.
pub open spec fn transparent_index_of(frame: FrameView) -> Option<u8> {
    if frame.transparent {
        match first_transparent(frame.data) {
            Some(p) => Some((p % 256) as u8),
            None => None,
        }
    } else {
        None
    }
}

/// The settings of a frame on a canvas of the given size: the delay is at
/// least 1, and a frame smaller than the canvas is centred on it.
pub open spec fn settings_of(frame: FrameView, width: u16, height: u16) -> FrameSettings {
    let smaller = frame.width < width || frame.height < height;
    FrameSettings {
        delay: if frame.delay == 0 {
            1
        } else {
            frame.delay as u16
        },
        disposal: frame.disposal,
        left: if smaller {
            center_offset(width as nat, frame.width) as u16
        } else {
            0
        },
        top: if smaller {
            center_offset(height as nat, frame.height) as u16
        } else {
            0
        },
        transparent_index: transparent_index_of(frame),
    }
}

/// Finds the first pixel with an alpha of zero.
pub fn first_transparent_pixel(data: &Vec<u8>) -> (found: Option<usize>)
    ensures
        match found {
            Some(p) => first_transparent(data@) == Some(p as int),
            None => first_transparent(data@) is None,
        },
{
    let mut p: usize = 0;
    while p < data.len() / 4
        invariant
            p <= data.len() / 4,
            forall|q: int| 0 <= q < p ==> #[trigger] alpha_of(data@, q) != 0,
        decreases data.len() / 4 - p,
    {
        if data[4 * p + 3] == 0 {
            proof {
                assert(is_first_transparent(data@, p as int));
                lemma_first_transparent_is_unique(
                    data@,
                    p as int,
                    choose|q: int| is_first_transparent(data@, q),
                );
            }
            return Some(p);
        }
        p = p + 1;
    }
    proof {
        assert forall|q: int| !is_first_transparent(data@, q) by {
            if 0 <= q && 4 * q + 3 < data@.len() {
                assert(alpha_of(data@, q) != 0);
            }
        }
    }
    None
}

/// Works out the settings with which a frame goes to the encoder.
pub fn frame_settings(frame: &Frame, width: u16, height: u16) -> (settings: FrameSettings)
    requires
        frame.width < width || frame.height < height ==> fits(frame@, width as nat, height as nat),
    ensures
        settings == settings_of(frame@, width, height),
        settings.delay >= 1,
{
    let smaller: bool = frame.width < width || frame.height < height;
    let (left, top): (u16, u16) = if smaller {
        ((width - frame.width) / 2, (height - frame.height) / 2)
    } else {
        (0, 0)
    };
    let transparent_index: Option<u8> = if frame.transparent {
        match first_transparent_pixel(&frame.data) {
            Some(p) => Some((p % 256) as u8),
            None => None,
        }
    } else {
        None
    };
    FrameSettings {
        delay: normalize_delay(frame.delay),
        disposal: frame.disposal,
        left,
        top,
        transparent_index,
    }
}

/// Tells the encoder how often to repeat: a loop count of zero means forever.
pub fn repeat_setting(gif: &Gif) -> (repeat: Repeat)
    ensures
        repeat == repeat_of(gif.loop_count),
{
    if gif.loop_count == 0 {
        Repeat::Infinite
    } else {
        Repeat::Finite(gif.loop_count)
    }
}

/// The shared palette as the encoder takes it: flat R, G, B bytes, none at all
/// when the sequence has no shared palette.
pub fn encoder_palette(gif: &Gif) -> (flat: Vec<u8>)
    ensures
        flat@ == match gif@.global_palette {
            Some(palette) => palette_bytes(palette),
            None => Seq::<u8>::empty(),
        },
{
    match &gif.global_palette {
        Some(palette) => palette_to_bytes(palette),
        None => Vec::new(),
    }
}

/// What `gif::Frame::from_rgba` makes of an RGBA picture: the palette as flat
/// R, G, B bytes, one palette index for each pixel, and the index that stands
/// for transparent pixels if the picture has any.
pub uninterp spec fn indexed_from_rgba(width: int, height: int, pixels: Seq<u8>) -> (
    Seq<u8>,
    Seq<u8>,
    Option<u8>,
);

/// Calls `gif::Frame::from_rgba` and takes palette, indices and transparent
/// index out of the frame it returns.
///
/// Trusted: the three depend on the arguments alone. There is one index for
/// each pixel, and the palette holds at most 256 colours of three bytes each.
/// `from_rgba` panics unless there are four bytes for each pixel.
#[verifier::external_body]
fn index_pixels(width: u16, height: u16, pixels: Vec<u8>) -> (indexed: (Vec<u8>, Vec<u8>, Option<u8>))
    requires
        pixels@.len() == width * height * 4,
    ensures
        (indexed.0@, indexed.1@, indexed.2) == indexed_from_rgba(
            width as int,
            height as int,
            pixels@,
        ),
        indexed.0@.len() <= 768,
        indexed.0@.len() % 3 == 0,
        indexed.1@.len() == width * height,
{
    let mut pixels = pixels;
    let frame = gif::Frame::from_rgba(width, height, &mut pixels);
    (frame.palette.unwrap_or_default(), frame.buffer.into_owned(), frame.transparent)
}

/// A frame as it goes to the encoder: palette-indexed pixels and the settings
/// that go with them.
#[derive(Debug)]
pub struct EncoderFrame {
    /// Width in pixels.
    pub width: u16,
    /// Height in pixels.
    pub height: u16,
    /// Palette of the frame as flat R, G, B bytes.
    pub palette: Vec<u8>,
    /// One palette index for each pixel, row after row.
    pub indices: Vec<u8>,
    /// Palette index that stands for transparent pixels, if there is one.
    pub transparent: Option<u8>,
    /// Display time in units of 10 ms; at least 1.
    pub delay: u16,
    /// How the canvas is prepared for the next frame.
    pub disposal: DisposalMethod,
    /// Distance of the frame from the left edge of the canvas.
    pub left: u16,
    /// Distance of the frame from the top edge of the canvas.
    pub top: u16,
}

/// The mathematical value of an [`EncoderFrame`]. The transparent index of the
/// settings is the one that the encoder is given.
pub struct EncoderFrameView {
    pub width: nat,
    pub height: nat,
    pub palette: Seq<u8>,
    pub indices: Seq<u8>,
    pub settings: FrameSettings,
}

impl View for EncoderFrame {
    type V = EncoderFrameView;

    open spec fn view(&self) -> EncoderFrameView {
        EncoderFrameView {
            width: self.width as nat,
            height: self.height as nat,
            palette: self.palette@,
            indices: self.indices@,
            settings: FrameSettings {
                delay: self.delay,
                disposal: self.disposal,
                left: self.left,
                top: self.top,
                transparent_index: self.transparent,
            },
        }
    }
}

/// The frame as it goes to the encoder on a canvas of the given size: the
/// pixels are indexed as the codec indexes them, the settings are those of the
/// frame, and the transparent index of the settings, where they have one,
/// takes the place of the codec's.
pub open spec fn encoder_frame_of(frame: FrameView, width: u16, height: u16) -> EncoderFrameView {
    let indexed = indexed_from_rgba(frame.width as int, frame.height as int, frame.data);
    let settings = settings_of(frame, width, height);
    let transparent = match settings.transparent_index {
        Some(index) => Some(index),
        None => indexed.2,
    };
    EncoderFrameView {
        width: frame.width,
        height: frame.height,
        palette: indexed.0,
        indices: indexed.1,
        settings: FrameSettings { transparent_index: transparent, ..settings },
    }
}

/// Prepares a frame for the encoder: indexes its pixels and works out its settings.
pub fn encoder_frame(frame: &Frame, width: u16, height: u16) -> (prepared: EncoderFrame)
    requires
        frame.wf(),
        frame.width < width || frame.height < height ==> fits(frame@, width as nat, height as nat),
    ensures
        prepared@ == encoder_frame_of(frame@, width, height),
        prepared.delay >= 1,
        prepared.indices@.len() == frame.width * frame.height,
        prepared.palette@.len() <= 768,
{
    let settings = frame_settings(frame, width, height);
    let (palette, indices, codec_transparent) = index_pixels(
        frame.width,
        frame.height,
        frame.data.clone(),
    );
    let transparent: Option<u8> = match settings.transparent_index {
        Some(index) => Some(index),
        None => codec_transparent,
    };
    EncoderFrame {
        width: frame.width,
        height: frame.height,
        palette,
        indices,
        transparent,
        delay: settings.delay,
        disposal: settings.disposal,
        left: settings.left,
        top: settings.top,
    }
}

} // verus!
