//! Facts about an animation, gathered for display.

use vstd::prelude::*;
use crate::model::Gif;
use crate::model::GifView;
use crate::timing::sum_delays;

verus! {

/// What there is to tell about an animation and the file it came from.
#[derive(Debug, Clone, Copy, PartialEq, Eq, Structural)]
pub struct Info {
    /// Size of the file in bytes.
    pub file_size: u64,
    /// Canvas width in pixels.
    pub width: u16,
    /// Canvas height in pixels.
    pub height: u16,
    /// Number of frames.
    pub frame_count: usize,
    /// Play time of one run through the animation, in units of 10 ms.
    pub total_duration: u128,
    /// Mean display time of a frame in milliseconds; none without frames.
    pub average_delay_ms: Option<u32>,
    /// How often the animation repeats; 0 repeats forever.
    pub loop_count: u16,
    /// Number of entries of the shared palette, if there is one.
    pub palette_colors: Option<usize>,
}

/// The mean display time of a frame in milliseconds: the play time over the
/// number of frames, rounded down to whole units of 10 ms.
pub open spec fn average_delay_ms(gif: GifView) -> Option<int> {
    if gif.frames.len() == 0 {
        None
    } else {
        Some((gif.duration() as int / gif.frames.len() as int) * 10)
    }
}

/// The facts about `gif`, read from a file of `file_size` bytes.
pub open spec fn info_of(gif: GifView, file_size: u64) -> Info {
    Info {
        file_size,
        width: gif.width as u16,
        height: gif.height as u16,
        frame_count: gif.frames.len() as usize,
        total_duration: gif.duration() as u128,
        average_delay_ms: match average_delay_ms(gif) {
            Some(ms) => Some(ms as u32),
            None => None,
        },
        loop_count: gif.loop_count as u16,
        palette_colors: match gif.global_palette {
            Some(palette) => Some(palette.len() as usize),
            None => None,
        },
    }
}

/// Gathers the facts about an animation that was read from a file of
/// `file_size` bytes.
pub fn run(gif: &Gif, file_size: u64) -> (info: Info)
    ensures
        info == info_of(gif@, file_size),
        info.total_duration == gif@.duration(),
        info.average_delay_ms matches Some(ms) ==> average_delay_ms(gif@) == Some(ms as int),
{
    let total: u128 = sum_delays(&gif.frames);
    let count: usize = gif.frames.len();
    let average_delay_ms: Option<u32> = if count > 0 {
        let mean: u128 = total / (count as u128);
        assert(mean <= 0xffff) by (nonlinear_arith)
            requires
                mean == total / (count as u128),
                total <= count * 0xffff,
                count > 0,
        ;
        Some((mean as u32) * 10)
    } else {
        None
    };
    let palette_colors: Option<usize> = match &gif.global_palette {
        Some(palette) => Some(palette.len()),
        None => None,
    };
    Info {
        file_size,
        width: gif.width,
        height: gif.height,
        frame_count: count,
        total_duration: total,
        average_delay_ms,
        loop_count: gif.loop_count,
        palette_colors,
    }
}

} // verus!
