//! Reducing the colours of an animation to a learned palette.

use vstd::prelude::*;
use crate::model::Frame;
use crate::model::FrameView;
use crate::model::Gif;
use crate::model::GifView;
use crate::operations::compress::difference::abs_diff;
use crate::operations::compress::difference::channel_distance;

verus! {

/// Number of whole RGB entries in a flat palette. Bytes after the last whole
/// entry are not part of the palette.
pub open spec fn palette_size(palette: Seq<u8>) -> int {
    palette.len() as int / 3
}

/// Manhattan distance in RGB between palette entry `k` and a colour.
pub open spec fn color_distance(palette: Seq<u8>, k: int, r: u8, g: u8, b: u8) -> int {
    abs_diff(palette[3 * k], r) + abs_diff(palette[3 * k + 1], g) + abs_diff(palette[3 * k + 2], b)
}

/// Index of the entry nearest to a colour among the first `n` entries; of
/// several equally near entries, the first.
pub open spec fn nearest_among(palette: Seq<u8>, n: int, r: u8, g: u8, b: u8) -> int
    decreases n,
{
    if n <= 1 {
        0
    } else {
        let best = nearest_among(palette, n - 1, r, g, b);
        if color_distance(palette, n - 1, r, g, b) < color_distance(palette, best, r, g, b) {
            n - 1
        } else {
            best
        }
    }
}

/// Index of the palette entry nearest to a colour; of several equally near
/// entries, the first.
pub open spec fn nearest(palette: Seq<u8>, r: u8, g: u8, b: u8) -> int {
    nearest_among(palette, palette_size(palette), r, g, b)
}

/// The nearest entry is an entry, no entry is nearer, and every entry before it
/// is farther.
pub proof fn lemma_nearest_is_first_minimum(palette: Seq<u8>, n: int, r: u8, g: u8, b: u8)
    requires
        n >= 1,
    ensures
        0 <= nearest_among(palette, n, r, g, b) < n,
        forall|j: int|
            0 <= j < n ==> color_distance(palette, nearest_among(palette, n, r, g, b), r, g, b)
                <= #[trigger] color_distance(palette, j, r, g, b),
        forall|j: int|
            0 <= j < nearest_among(palette, n, r, g, b) ==> color_distance(
                palette,
                nearest_among(palette, n, r, g, b),
                r,
                g,
                b,
            ) < #[trigger] color_distance(palette, j, r, g, b),
    decreases n,
{
    if n > 1 {
        lemma_nearest_is_first_minimum(palette, n - 1, r, g, b);
    }
}

/// Byte `i` of a buffer after every opaque pixel took the colour of its nearest
/// palette entry. Alpha bytes and transparent pixels stay; so does everything
/// when the palette has no entry.
pub open spec fn remapped_byte(data: Seq<u8>, palette: Seq<u8>, i: int) -> u8 {
    let p = i - i % 4;
    if i % 4 != 3 && data[p + 3] > 0 && palette_size(palette) >= 1 {
        palette[3 * nearest(palette, data[p], data[p + 1], data[p + 2]) + i % 4]
    } else {
        data[i]
    }
}

/// A buffer after every opaque pixel took the colour of its nearest palette entry.
pub open spec fn remapped_pixels(data: Seq<u8>, palette: Seq<u8>) -> Seq<u8> {
    Seq::new(data.len(), |i: int| remapped_byte(data, palette, i))
}

/// A frame after its opaque pixels were mapped to the palette.
pub open spec fn remapped_frame(frame: FrameView, palette: Seq<u8>) -> FrameView {
    FrameView { data: remapped_pixels(frame.data, palette), ..frame }
}

/// A sequence after the opaque pixels of every frame were mapped to the palette.
pub open spec fn remapped(gif: GifView, palette: Seq<u8>) -> GifView {
    GifView { frames: gif.frames.map_values(|f: FrameView| remapped_frame(f, palette)), ..gif }
}

/// Mapping to a palette never touches an alpha byte or a transparent pixel.
pub proof fn lemma_remap_spares_transparent(data: Seq<u8>, palette: Seq<u8>, i: int)
    requires
        0 <= i < data.len(),
    ensures
        remapped_pixels(data, palette).len() == data.len(),
        i % 4 == 3 || data[i - i % 4 + 3] == 0 ==> remapped_pixels(data, palette)[i] == data[i],
{
}

/// Finds the palette entry nearest to a colour; of several equally near
/// entries, the first.
pub fn nearest_color(palette: &Vec<u8>, r: u8, g: u8, b: u8) -> (k: usize)
    requires
        palette.len() >= 3,
    ensures
        k == nearest(palette@, r, g, b),
        3 * k + 2 < palette.len(),
{
    let n: usize = palette.len() / 3;
    let mut best: usize = 0;
    let mut best_distance: u16 = entry_distance(palette, 0, r, g, b);
    let mut j: usize = 1;
    while j < n
        invariant
            1 <= j <= n,
            n == palette_size(palette@),
            best < j,
            best == nearest_among(palette@, j as int, r, g, b),
            best_distance == color_distance(palette@, best as int, r, g, b),
        decreases n - j,
    {
        let d: u16 = entry_distance(palette, j, r, g, b);
        if d < best_distance {
            best = j;
            best_distance = d;
        }
        j = j + 1;
    }
    best
}

/// Manhattan distance in RGB between palette entry `k` and a colour.
pub fn entry_distance(palette: &Vec<u8>, k: usize, r: u8, g: u8, b: u8) -> (d: u16)
    requires
        3 * k + 2 < palette.len(),
    ensures
        d == color_distance(palette@, k as int, r, g, b),
{
    let base: usize = 3 * k;
    channel_distance(palette[base], r) as u16 + channel_distance(palette[base + 1], g) as u16
        + channel_distance(palette[base + 2], b) as u16
}

/// Gives every opaque pixel of a buffer the colour of its nearest palette entry.
pub fn remap_pixels(data: &Vec<u8>, palette: &Vec<u8>) -> (out: Vec<u8>)
    requires
        data@.len() % 4 == 0,
    ensures
        out@ == remapped_pixels(data@, palette@),
{
    let has_entries: bool = palette.len() >= 3;
    let mut out: Vec<u8> = Vec::new();
    let mut p: usize = 0;
    while p < data.len()
        invariant
            p <= data.len(),
            p % 4 == 0,
            data@.len() % 4 == 0,
            has_entries == (palette_size(palette@) >= 1),
            out@.len() == p,
            forall|i: int| 0 <= i < p ==> out@[i] == remapped_byte(data@, palette@, i),
        decreases data.len() - p,
    {
        let alpha: u8 = data[p + 3];
        if alpha > 0 && has_entries {
            let k = nearest_color(palette, data[p], data[p + 1], data[p + 2]);
            out.push(palette[3 * k]);
            out.push(palette[3 * k + 1]);
            out.push(palette[3 * k + 2]);
        } else {
            out.push(data[p]);
            out.push(data[p + 1]);
            out.push(data[p + 2]);
        }
        out.push(alpha);
        p = p + 4;
    }
    assert(out@ =~= remapped_pixels(data@, palette@));
    out
}

/// Gives every opaque pixel of every frame the colour of its nearest entry in a
/// flat RGB palette. Transparent pixels are left untouched.
pub fn remap_to_palette(gif: &mut Gif, palette: &Vec<u8>)
    requires
        old(gif).wf(),
    ensures
        final(gif)@ == remapped(old(gif)@, palette@),
        final(gif).wf(),
{
    let ghost before = gif@;
    let mut frames: Vec<Frame> = Vec::new();
    let mut i: usize = 0;
    while i < gif.frames.len()
        invariant
            i <= gif.frames.len(),
            gif@ == before,
            gif.wf(),
            frames@.len() == i,
            forall|j: int|
                0 <= j < i ==> (#[trigger] frames@[j])@ == remapped_frame(before.frames[j], palette@),
        decreases gif.frames.len() - i,
    {
        let frame = &gif.frames[i];
        assert(gif@.frames[i as int].wf());
        let data = remap_pixels(&frame.data, palette);
        frames.push(
            Frame {
                data,
                width: frame.width,
                height: frame.height,
                delay: frame.delay,
                transparent: frame.transparent,
                disposal: frame.disposal,
            },
        );
        i = i + 1;
    }
    gif.frames = frames;
    assert(gif@.frames =~= remapped(before, palette@).frames);
}

/// The colours of the opaque pixels among the first `pixels` pixels of a
/// buffer, three bytes each, in buffer order.
pub open spec fn opaque_colors(data: Seq<u8>, pixels: int) -> Seq<u8>
    decreases pixels,
{
    if pixels <= 0 {
        Seq::empty()
    } else {
        let p = pixels - 1;
        let before = opaque_colors(data, p);
        if data[4 * p + 3] > 0 {
            before + seq![data[4 * p], data[4 * p + 1], data[4 * p + 2]]
        } else {
            before
        }
    }
}

/// The colours of the opaque pixels of the first `n` frames, frame after frame.
pub open spec fn frames_colors(frames: Seq<FrameView>, n: int) -> Seq<u8>
    decreases n,
{
    if n <= 0 {
        Seq::empty()
    } else {
        frames_colors(frames, n - 1) + opaque_colors(
            frames[n - 1].data,
            frames[n - 1].data.len() as int / 4,
        )
    }
}

/// The sample set that the palette is trained on: the colours of all opaque
/// pixels of the sequence.
pub open spec fn color_samples(gif: GifView) -> Seq<u8> {
    frames_colors(gif.frames, gif.frames.len() as int)
}

/// Gathers the colours of all opaque pixels of the sequence.
pub fn collect_color_samples(gif: &Gif) -> (samples: Vec<u8>)
    requires
        gif.wf(),
    ensures
        samples@ == color_samples(gif@),
{
    let mut samples: Vec<u8> = Vec::new();
    let mut i: usize = 0;
    while i < gif.frames.len()
        invariant
            i <= gif.frames.len(),
            gif.wf(),
            samples@ == frames_colors(gif@.frames, i as int),
        decreases gif.frames.len() - i,
    {
        let data = &gif.frames[i].data;
        let ghost done = samples@;
        assert(gif@.frames[i as int].wf());
        assert(gif@.frames[i as int].data == data@);
        let pixels: usize = data.len() / 4;
        let mut p: usize = 0;
        while p < pixels
            invariant
                p <= pixels,
                pixels == data.len() / 4,
                data.len() % 4 == 0,
                samples@ == done + opaque_colors(data@, p as int),
            decreases pixels - p,
        {
            if data[4 * p + 3] > 0 {
                samples.push(data[4 * p]);
                samples.push(data[4 * p + 1]);
                samples.push(data[4 * p + 2]);
                assert(samples@ =~= done + (opaque_colors(data@, p as int) + seq![
                    data@[4 * p],
                    data@[4 * p + 1],
                    data@[4 * p + 2],
                ]));
            }
            p = p + 1;
        }
        i = i + 1;
    }
    samples
}

/// The palette that `color_quant::NeuQuant` learns from a sample of pixels:
/// the bytes that `NeuQuant::new(sample_factor, colors, pixels).color_map_rgb()`
/// returns.
pub uninterp spec fn neuquant_palette(sample_factor: int, colors: int, pixels: Seq<u8>) -> Seq<u8>;

/// Calls `color_quant::NeuQuant::new` and reads the trained network out with
/// `color_map_rgb`.
///
/// Trusted: the bytes returned depend on the three arguments alone, and there are
/// three of them for each of the `colors` entries of the network. `NeuQuant`
/// divides by `sample_factor` and indexes its last entry, so both must be at
/// least 1.
#[verifier::external_body]
fn train_palette(sample_factor: i32, colors: usize, pixels: &Vec<u8>) -> (palette: Vec<u8>)
    requires
        1 <= sample_factor <= 30,
        1 <= colors <= 256,
    ensures
        palette@ == neuquant_palette(sample_factor as int, colors as int, pixels@),
        palette@.len() == 3 * colors,
{
    color_quant::NeuQuant::new(sample_factor, colors, pixels).color_map_rgb()
}

/// Share of the samples that the palette is trained on: every 10th.
pub const SAMPLE_FACTOR: i32 = 10;

/// The palette that is learned for a sequence: `max_colors` entries trained on
/// the colours of its opaque pixels.
pub open spec fn learned_palette(gif: GifView, max_colors: int) -> Seq<u8> {
    neuquant_palette(SAMPLE_FACTOR as int, max_colors, color_samples(gif))
}

/// A sequence after its colours were reduced to a learned palette of
/// `max_colors` entries. With 256 colours or more, or without any opaque pixel,
/// nothing changes.
pub open spec fn color_reduced(gif: GifView, max_colors: int) -> GifView {
    if max_colors >= 256 || color_samples(gif).len() == 0 {
        gif
    } else {
        remapped(gif, learned_palette(gif, max_colors))
    }
}

/// Reduces the colours of the sequence to at most `max_colors`.
///
/// A palette of `max_colors` entries is learned from the opaque pixels of all
/// frames, and every opaque pixel takes the colour of its nearest entry.
/// Transparent pixels and alpha bytes stay as they are.
/// [`remap_to_palette`] says what happens for a given palette.
pub fn reduce_colors(gif: &mut Gif, max_colors: usize)
    requires
        old(gif).wf(),
        max_colors >= 1,
    ensures
        final(gif)@ == color_reduced(old(gif)@, max_colors as int),
        final(gif).wf(),
        max_colors < 256 && color_samples(old(gif)@).len() > 0 ==> learned_palette(
            old(gif)@,
            max_colors as int,
        ).len() == 3 * max_colors,
        final(gif)@.frames.len() == old(gif)@.frames.len(),
        forall|k: int, i: int|
            0 <= k < old(gif)@.frames.len() && 0 <= i < old(gif)@.frames[k].data.len() && (i % 4
                == 3 || old(gif)@.frames[k].data[i - i % 4 + 3] == 0) ==> #[trigger] final(gif)@.frames[k].data[i] == old(gif)@.frames[k].data[i],
{
    proof {
        assert forall|k: int, i: int|
            0 <= k < gif@.frames.len() && 0 <= i < gif@.frames[k].data.len() && (i % 4 == 3
                || gif@.frames[k].data[i - i % 4 + 3] == 0) implies #[trigger] color_reduced(
            gif@,
            max_colors as int,
        ).frames[k].data[i] == gif@.frames[k].data[i] by {
            lemma_color_reduction_spares_transparent(gif@, max_colors as int, k, i);
        }
    }
    if max_colors >= 256 {
        return ;
    }
    let samples = collect_color_samples(gif);
    if samples.len() == 0 {
        return ;
    }
    let palette = train_palette(SAMPLE_FACTOR, max_colors, &samples);
    remap_to_palette(gif, &palette);
}

/// Colour reduction never touches an alpha byte or a transparent pixel.
pub proof fn lemma_color_reduction_spares_transparent(gif: GifView, max_colors: int, k: int, i: int)
    requires
        0 <= k < gif.frames.len(),
        0 <= i < gif.frames[k].data.len(),
    ensures
        color_reduced(gif, max_colors).frames.len() == gif.frames.len(),
        color_reduced(gif, max_colors).frames[k].data.len() == gif.frames[k].data.len(),
        i % 4 == 3 || gif.frames[k].data[i - i % 4 + 3] == 0 ==> color_reduced(
            gif,
            max_colors,
        ).frames[k].data[i] == gif.frames[k].data[i],
{
}

/// An opaque pixel among the first `pixels` pixels of a buffer gives a sample.
pub proof fn lemma_opaque_pixel_is_sampled(data: Seq<u8>, pixels: int, p: int)
    requires
        0 <= p < pixels,
        data[4 * p + 3] > 0,
    ensures
        opaque_colors(data, pixels).len() > 0,
    decreases pixels,
{
    if p < pixels - 1 {
        lemma_opaque_pixel_is_sampled(data, pixels - 1, p);
    }
}

/// A frame among the first `n` with an opaque pixel gives the sequence a sample.
pub proof fn lemma_opaque_frame_is_sampled(frames: Seq<FrameView>, n: int, k: int, p: int)
    requires
        0 <= k < n,
        0 <= p < frames[k].data.len() as int / 4,
        frames[k].data[4 * p + 3] > 0,
    ensures
        frames_colors(frames, n).len() > 0,
    decreases n,
{
    if k < n - 1 {
        lemma_opaque_frame_is_sampled(frames, n - 1, k, p);
    } else {
        lemma_opaque_pixel_is_sampled(frames[k].data, frames[k].data.len() as int / 4, p);
    }
}

/// With a palette of `max_colors` entries learned, every opaque pixel has the
/// colour of an entry afterwards: of the entry nearest to the colour it had, and
/// of the first of several equally near. So at most `max_colors` colours are
/// left on opaque pixels, and pixels of one colour stay pixels of one colour.
pub proof fn lemma_color_reduction_uses_palette(gif: GifView, max_colors: int, k: int, p: int)
    requires
        1 <= max_colors < 256,
        learned_palette(gif, max_colors).len() == 3 * max_colors,
        0 <= k < gif.frames.len(),
        0 <= p < gif.frames[k].data.len() as int / 4,
        gif.frames[k].data[4 * p + 3] > 0,
    ensures
        ({
            let palette = learned_palette(gif, max_colors);
            let before = gif.frames[k].data;
            let after = color_reduced(gif, max_colors).frames[k].data;
            let entry = nearest(palette, before[4 * p], before[4 * p + 1], before[4 * p + 2]);
            &&& 0 <= entry < max_colors
            &&& after[4 * p] == palette[3 * entry]
            &&& after[4 * p + 1] == palette[3 * entry + 1]
            &&& after[4 * p + 2] == palette[3 * entry + 2]
            &&& after[4 * p + 3] == before[4 * p + 3]
            &&& forall|j: int|
                0 <= j < max_colors ==> color_distance(
                    palette,
                    entry,
                    before[4 * p],
                    before[4 * p + 1],
                    before[4 * p + 2],
                ) <= #[trigger] color_distance(
                    palette,
                    j,
                    before[4 * p],
                    before[4 * p + 1],
                    before[4 * p + 2],
                )
            &&& forall|j: int|
                0 <= j < entry ==> color_distance(
                    palette,
                    entry,
                    before[4 * p],
                    before[4 * p + 1],
                    before[4 * p + 2],
                ) < #[trigger] color_distance(
                    palette,
                    j,
                    before[4 * p],
                    before[4 * p + 1],
                    before[4 * p + 2],
                )
        }),
{
    let palette = learned_palette(gif, max_colors);
    let before = gif.frames[k].data;
    lemma_opaque_frame_is_sampled(gif.frames, gif.frames.len() as int, k, p);
    assert(palette_size(palette) == max_colors);
    lemma_nearest_is_first_minimum(
        palette,
        max_colors,
        before[4 * p],
        before[4 * p + 1],
        before[4 * p + 2],
    );
    let after = color_reduced(gif, max_colors).frames[k].data;
    assert(after == remapped_pixels(before, palette));
    assert(after[4 * p] == remapped_byte(before, palette, 4 * p));
    assert(after[4 * p + 1] == remapped_byte(before, palette, 4 * p + 1));
    assert(after[4 * p + 2] == remapped_byte(before, palette, 4 * p + 2));
    assert(after[4 * p + 3] == remapped_byte(before, palette, 4 * p + 3));
}

} // verus!
