//! Trading colour precision for size.

use vstd::prelude::*;
use crate::model::Frame;
use crate::model::FrameView;
use crate::model::Gif;
use crate::model::GifView;

verus! {

/// Byte `i` of a buffer after every colour channel of every opaque pixel was
/// rounded down to a multiple of `factor`. Alpha bytes and transparent pixels stay.
pub open spec fn lossy_byte(data: Seq<u8>, factor: int, i: int) -> u8 {
    if i % 4 != 3 && data[i - i % 4 + 3] > 0 {
        ((data[i] as int / factor) * factor) as u8
    } else {
        data[i]
    }
}

/// A buffer after lossy quantization at `quality`. The rounding step is
/// `100 - quality`; at quality 100 and above nothing changes.
pub open spec fn lossy_pixels(data: Seq<u8>, quality: int) -> Seq<u8> {
    if quality >= 100 {
        data
    } else {
        Seq::new(data.len(), |i: int| lossy_byte(data, 100 - quality, i))
    }
}

/// A frame after lossy quantization at `quality`.
pub open spec fn lossy_frame(frame: FrameView, quality: int) -> FrameView {
    FrameView { data: lossy_pixels(frame.data, quality), ..frame }
}

/// A sequence after lossy quantization of every frame at `quality`.
pub open spec fn lossy(gif: GifView, quality: int) -> GifView {
    GifView { frames: gif.frames.map_values(|f: FrameView| lossy_frame(f, quality)), ..gif }
}

/// Rounds the colour channels of every opaque pixel down to a multiple of `factor`.
pub fn quantize_channels(data: &Vec<u8>, factor: u8) -> (out: Vec<u8>)
    requires
        factor > 0,
        data@.len() % 4 == 0,
    ensures
        out@ == Seq::new(data@.len(), |i: int| lossy_byte(data@, factor as int, i)),
{
    let mut out: Vec<u8> = Vec::new();
    let mut p: usize = 0;
    while p < data.len()
        invariant
            p <= data.len(),
            p % 4 == 0,
            data@.len() % 4 == 0,
            factor > 0,
            out@.len() == p,
            forall|i: int| 0 <= i < p ==> out@[i] == lossy_byte(data@, factor as int, i),
        decreases data.len() - p,
    {
        let alpha: u8 = data[p + 3];
        if alpha > 0 {
            out.push(round_down(data[p], factor));
            out.push(round_down(data[p + 1], factor));
            out.push(round_down(data[p + 2], factor));
        } else {
            out.push(data[p]);
            out.push(data[p + 1]);
            out.push(data[p + 2]);
        }
        out.push(alpha);
        p = p + 4;
    }
    assert(out@ =~= Seq::new(data@.len(), |i: int| lossy_byte(data@, factor as int, i)));
    out
}

/// The largest multiple of `factor` that does not exceed `value`.
pub fn round_down(value: u8, factor: u8) -> (rounded: u8)
    requires
        factor > 0,
    ensures
        rounded == (value as int / factor as int) * factor,
        rounded <= value,
        rounded % factor == 0,
{
    let q: u8 = value / factor;
    assert(q * factor <= value && (q * factor) % (factor as int) == 0) by (nonlinear_arith)
        requires
            q == value as int / factor as int,
            factor > 0,
            value >= 0,
    ;
    q * factor
}

/// Trades colour precision for size: rounds the colour channels of every opaque
/// pixel down to a multiple of `100 - quality`. Quality 100 and above changes nothing.
pub fn apply_lossy_compression(gif: &mut Gif, quality: u8)
    requires
        old(gif).wf(),
    ensures
        final(gif)@ == lossy(old(gif)@, quality as int),
        final(gif).wf(),
{
    let ghost before = gif@;
    if quality >= 100 {
        assert(lossy(before, quality as int).frames =~= before.frames);
        return ;
    }
    let factor: u8 = 100 - quality;
    let mut frames: Vec<Frame> = Vec::new();
    let mut i: usize = 0;
    while i < gif.frames.len()
        invariant
            i <= gif.frames.len(),
            gif@ == before,
            gif.wf(),
            factor == 100 - quality,
            quality < 100,
            frames@.len() == i,
            forall|j: int|
                0 <= j < i ==> (#[trigger] frames@[j])@ == lossy_frame(before.frames[j], quality as int),
        decreases gif.frames.len() - i,
    {
        let frame = &gif.frames[i];
        assert(gif@.frames[i as int].wf());
        let data = quantize_channels(&frame.data, factor);
        frames.push(
            Frame {
                data,
                width: frame.width,
                height: frame.height,
                delay: frame.delay,
                transparent: frame.transparent,
                disposal: frame.disposal,
            },
        );
        i = i + 1;
    }
    gif.frames = frames;
    assert(gif@.frames =~= lossy(before, quality as int).frames);
}

/// Lossy quantization at quality 100 or above changes no byte.
pub proof fn lemma_lossy_at_full_quality(gif: GifView, quality: int)
    requires
        quality >= 100,
    ensures
        lossy(gif, quality) == gif,
{
    assert(lossy(gif, quality).frames =~= gif.frames);
}

/// Lossy quantization never touches an alpha byte or a transparent pixel, and
/// never raises a channel.
pub proof fn lemma_lossy_spares_alpha(data: Seq<u8>, quality: int, i: int)
    requires
        0 <= i < data.len(),
        0 <= quality,
    ensures
        lossy_pixels(data, quality).len() == data.len(),
        i % 4 == 3 || data[i - i % 4 + 3] == 0 ==> lossy_pixels(data, quality)[i] == data[i],
        lossy_pixels(data, quality)[i] <= data[i],
{
    if quality < 100 {
        let factor = 100 - quality;
        let v = data[i] as int;
        assert(0 <= (v / factor) * factor <= v) by (nonlinear_arith)
            requires
                0 <= v,
                factor > 0,
        ;
    }
}

/// Lossy quantization settles at once: a second run at the same quality
/// changes nothing more.
pub proof fn lemma_lossy_settles(data: Seq<u8>, quality: int)
    requires
        0 <= quality,
        data.len() % 4 == 0,
    ensures
        lossy_pixels(lossy_pixels(data, quality), quality) == lossy_pixels(data, quality),
{
    if quality < 100 {
        let factor = 100 - quality;
        let once = lossy_pixels(data, quality);
        assert forall|i: int| 0 <= i < data.len() implies lossy_byte(once, factor, i) == once[i] by {
            let v = data[i] as int;
            assert(((v / factor) * factor) / factor == v / factor && 0 <= (v / factor) * factor
                <= v) by (nonlinear_arith)
                requires
                    0 <= v,
                    factor > 0,
            ;
            let alpha = i - i % 4 + 3;
            assert(0 <= alpha < data.len());
            assert(once[alpha] == lossy_byte(data, factor, alpha));
            assert(once[i] == lossy_byte(data, factor, i));
        }
        assert(lossy_pixels(once, quality) =~= once);
    }
}

} // verus!
