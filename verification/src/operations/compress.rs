//! Compressing an animation towards a target size: the passes, and the
//! controller that orders them and stops the search.

use vstd::prelude::*;
use crate::compositor::composited;
use crate::compositor::fits_canvas;
use crate::error::Error;
use crate::model::Gif;
use crate::model::GifView;
use crate::operations::policy::bracket_for;
use crate::operations::policy::fallback_due;
use crate::operations::policy::find_bracket;
use crate::operations::policy::judge;
use crate::operations::policy::lemma_brackets_partition;
use crate::operations::policy::needs_fallback;
use crate::operations::policy::verdict_after;
use crate::operations::policy::Bracket;
use crate::operations::policy::Pass;
use crate::operations::policy::Verdict;
use crate::operations::policy::FALLBACK_QUALITY;
use crate::operations::policy::PASS_COUNT;
use crate::operations::tune::normalize_frames_composited;

pub mod dedup;
pub mod difference;
pub mod lossy;
pub mod palette;
pub mod resample;

pub use self::dedup::deduplicate_frames;
pub use self::difference::calculate_frame_difference;
pub use self::lossy::apply_lossy_compression;
pub use self::palette::nearest_color;
pub use self::palette::reduce_colors;
pub use self::palette::remap_to_palette;
pub use self::resample::reduce_frame_count;

use self::dedup::deduplicated;
use self::dedup::delays_fit;
use self::lossy::lossy;
use self::palette::color_reduced;

verus! {

/// Brings every frame to the size of the canvas before the passes run.
///
/// This is the compositing of partial frames, with disposal honoured.
pub fn normalize_frames(gif: &mut Gif)
    requires
        old(gif).wf(),
        fits_canvas(old(gif)@),
        old(gif).width * old(gif).height * 4 <= usize::MAX,
    ensures
        final(gif)@ == composited(old(gif)@),
        final(gif).wf(),
        fits_canvas(final(gif)@),
{
    normalize_frames_composited(gif);
}

/// The sequence after one pass, or the error that the pass ends with.
pub open spec fn pass_applied(gif: GifView, pass: Pass) -> Result<GifView, Error> {
    match pass {
        Pass::Skip => Ok(gif),
        Pass::Deduplicate { threshold } => {
            if delays_fit(deduplicated(gif.frames, threshold as int)) {
                Ok(GifView { frames: deduplicated(gif.frames, threshold as int), ..gif })
            } else {
                Err(Error::DelayOverflow)
            }
        },
        Pass::ReduceColors { max_colors } => Ok(color_reduced(gif, max_colors as int)),
        Pass::Lossy { quality } => Ok(lossy(gif, quality as int)),
    }
}

/// Runs one pass over the sequence. A pass that fails changes nothing.
pub fn apply_pass(gif: &mut Gif, pass: Pass) -> (outcome: Result<(), Error>)
    requires
        old(gif).wf(),
        pass matches Pass::ReduceColors { max_colors } ==> max_colors >= 1,
    ensures
        match pass_applied(old(gif)@, pass) {
            Ok(after) => outcome is Ok && final(gif)@ == after,
            Err(e) => outcome == Err::<(), Error>(e) && final(gif)@ == old(gif)@,
        },
        final(gif).wf(),
{
    match pass {
        Pass::Skip => Ok(()),
        Pass::Deduplicate { threshold } => deduplicate_frames(gif, threshold),
        Pass::ReduceColors { max_colors } => {
            reduce_colors(gif, max_colors as usize);
            Ok(())
        },
        Pass::Lossy { quality } => {
            apply_lossy_compression(gif, quality);
            Ok(())
        },
    }
}

/// What the controller asks of its caller.
#[derive(Debug, Clone, Copy, PartialEq, Eq, Structural)]
pub enum Action {
    /// Encode the sequence as it is now and report the size of the encoding.
    Measure,
    /// The search is over: the sequence as it is now is the result.
    Finish,
}

/// The search for an encoding of a target size.
///
/// The controller runs a pass, asks for the size of the encoding, and decides
/// from the answer whether to go on. Encoding is not its business: whoever
/// drives it encodes the sequence and hands the size back.
#[derive(Debug, Clone, Copy)]
pub struct Controller {
    /// The target, in hundredths of the original size.
    pub percent: u8,
    /// Size of the encoding that the search started from, in bytes.
    pub original_size: u64,
    /// The pass parameters for the target.
    pub bracket: Bracket,
    /// Position of the pass that runs next.
    pub next_step: u8,
    /// Whether the search is over.
    pub finished: bool,
}

impl Controller {
    /// The target is between 1 and 99, the bracket is the one of the target, and
    /// the position is one of the sequence of passes or just past it.
    pub open spec fn wf(&self) -> bool {
        &&& 1 <= self.percent <= 99
        &&& self.bracket == bracket_for(self.percent as int)
        &&& self.next_step <= PASS_COUNT
    }

    /// The sequence after the pass at the current position.
    pub open spec fn after_next_pass(&self, gif: GifView) -> Result<GifView, Error> {
        pass_applied(gif, self.bracket.pass_at(self.next_step as int))
    }

    /// The verdict on the pass that ran last, given the size of its encoding.
    pub open spec fn verdict(&self, size: u64) -> Verdict {
        verdict_after(
            self.percent as int,
            self.next_step - 1,
            size as int,
            self.original_size as int,
        )
    }

    /// After a pass measured at `size` another pass runs.
    pub open spec fn goes_on(&self, size: u64) -> bool {
        self.verdict(size) == Verdict::Continue && self.next_step < PASS_COUNT
    }

    /// The sequence at the end of the search, when the last pass was measured
    /// at `size`: the extra lossy pass has run if it was due.
    pub open spec fn closing(&self, gif: GifView, size: u64) -> GifView {
        if fallback_due(
            self.percent as int,
            self.verdict(size),
            size as int,
            self.original_size as int,
        ) {
            lossy(gif, FALLBACK_QUALITY as int)
        } else {
            gif
        }
    }

    /// Sets up the search for `percent` hundredths of `original_size`.
    ///
    /// Fails when `percent` is not between 1 and 99.
    pub fn new(original_size: u64, percent: u8) -> (outcome: Result<Controller, Error>)
        ensures
            outcome is Ok <==> 1 <= percent <= 99,
            outcome matches Ok(controller) ==> controller.wf() && controller.percent == percent
                && controller.original_size == original_size && controller.next_step == 0
                && !controller.finished,
            outcome matches Err(e) ==> e == Error::InvalidParameter,
    {
        match find_bracket(percent) {
            Some(bracket) => Ok(
                Controller { percent, original_size, bracket, next_step: 0, finished: false },
            ),
            None => Err(Error::InvalidParameter),
        }
    }

    /// Composites the sequence, unless the bracket of this controller leaves partial frames alone.
    pub fn prepare(&self, gif: &mut Gif)
        requires
            old(gif).wf(),
            !self.bracket.skip_normalization ==> fits_canvas(old(gif)@) && old(gif).width * old(gif).height * 4 <= usize::MAX,
        ensures
            final(gif)@ == if self.bracket.skip_normalization {
                old(gif)@
            } else {
                composited(old(gif)@)
            },
            final(gif).wf(),
            !self.bracket.skip_normalization ==> fits_canvas(final(gif)@),
    {
        if !self.bracket.skip_normalization {
            normalize_frames(gif);
        }
    }

    /// Runs the first pass and asks for its measurement.
    pub fn start(&mut self, gif: &mut Gif) -> (outcome: Result<Action, Error>)
        requires
            old(self).wf(),
            old(self).next_step == 0,
            !old(self).finished,
            old(gif).wf(),
        ensures
            final(self).wf(),
            final(gif).wf(),
            match old(self).after_next_pass(old(gif)@) {
                Ok(after) => outcome == Ok::<Action, Error>(Action::Measure) && final(gif)@ == after
                    && *final(self) == (Controller { next_step: 1, ..*old(self) }),
                Err(e) => outcome == Err::<Action, Error>(e) && final(gif)@ == old(gif)@ && *final(self) == *old(self),
            },
    {
        proof {
            lemma_brackets_partition(self.percent as int);
        }
        match apply_pass(gif, self.bracket.pass(0)) {
            Ok(()) => {
                self.next_step = 1;
                Ok(Action::Measure)
            },
            Err(e) => Err(e),
        }
    }

    /// Takes the size of the encoding of the sequence as the last pass left it.
    ///
    /// If the verdict is to go on and a pass is left, that pass runs and its
    /// measurement is asked for. Otherwise the search ends, after the extra
    /// lossy pass if that is due.
    pub fn observe(&mut self, gif: &mut Gif, size: u64) -> (outcome: Result<Action, Error>)
        requires
            old(self).wf(),
            old(self).next_step >= 1,
            !old(self).finished,
            old(gif).wf(),
        ensures
            final(self).wf(),
            final(gif).wf(),
            old(self).goes_on(size) ==> match old(self).after_next_pass(old(gif)@) {
                Ok(after) => outcome == Ok::<Action, Error>(Action::Measure) && final(gif)@ == after
                    && *final(self) == (Controller {
                    next_step: (old(self).next_step + 1) as u8,
                    ..*old(self)
                }),
                Err(e) => outcome == Err::<Action, Error>(e) && final(gif)@ == old(gif)@ && *final(self) == *old(self),
            },
            !old(self).goes_on(size) ==> outcome == Ok::<Action, Error>(Action::Finish) && final(gif)@ == old(self).closing(old(gif)@, size) && *final(self) == (Controller {
                finished: true,
                ..*old(self)
            }),
    {
        proof {
            lemma_brackets_partition(self.percent as int);
        }
        let verdict = judge(self.percent, self.next_step - 1, size, self.original_size);
        let goes_on: bool = match verdict {
            Verdict::Continue => self.next_step < PASS_COUNT,
            _ => false,
        };
        if goes_on {
            match apply_pass(gif, self.bracket.pass(self.next_step)) {
                Ok(()) => {
                    self.next_step = self.next_step + 1;
                    Ok(Action::Measure)
                },
                Err(e) => Err(e),
            }
        } else {
            if needs_fallback(self.percent, verdict, size, self.original_size) {
                apply_lossy_compression(gif, FALLBACK_QUALITY);
            }
            self.finished = true;
            Ok(Action::Finish)
        }
    }
}

/// The search as it stands while a measurement is awaited, after the
/// measurements in `sizes` were handed in: the controller and the sequence.
/// There is no such state when a pass failed or the search was over before.
pub open spec fn awaiting(start: Controller, gif: GifView, sizes: Seq<u64>) -> Option<
    (Controller, GifView),
>
    decreases sizes.len(),
{
    if sizes.len() == 0 {
        match start.after_next_pass(gif) {
            Ok(after) => Some((Controller { next_step: 1, ..start }, after)),
            Err(_) => None,
        }
    } else {
        match awaiting(start, gif, sizes.drop_last()) {
            Some((controller, before)) => {
                if controller.goes_on(sizes.last()) {
                    match controller.after_next_pass(before) {
                        Ok(after) => Some(
                            (
                                Controller {
                                    next_step: (controller.next_step + 1) as u8,
                                    ..controller
                                },
                                after,
                            ),
                        ),
                        Err(_) => None,
                    }
                } else {
                    None
                }
            },
            None => None,
        }
    }
}

/// The sequence that the search ends with when its passes are measured at
/// `sizes`, one size for each pass that ran. There is none unless the last
/// size, and no size before it, ends the search.
pub open spec fn search_result(start: Controller, gif: GifView, sizes: Seq<u64>) -> Option<GifView> {
    if sizes.len() == 0 {
        None
    } else {
        match awaiting(start, gif, sizes.drop_last()) {
            Some((controller, before)) => {
                if controller.goes_on(sizes.last()) {
                    None
                } else {
                    Some(controller.closing(before, sizes.last()))
                }
            },
            None => None,
        }
    }
}

/// While a measurement is awaited, one more pass has run than sizes were
/// handed in, and no more passes than there are.
pub proof fn lemma_awaiting_position(start: Controller, gif: GifView, sizes: Seq<u64>)
    requires
        start.next_step == 0,
    ensures
        awaiting(start, gif, sizes) matches Some((controller, _)) ==> controller.next_step
            == sizes.len() + 1 && controller.next_step <= PASS_COUNT,
    decreases sizes.len(),
{
    if sizes.len() > 0 {
        lemma_awaiting_position(start, gif, sizes.drop_last());
    }
}

/// The search ends within as many measurements as there are passes.
pub proof fn lemma_search_is_bounded(start: Controller, gif: GifView, sizes: Seq<u64>)
    requires
        start.next_step == 0,
    ensures
        search_result(start, gif, sizes) is Some ==> 1 <= sizes.len() <= PASS_COUNT,
{
    if sizes.len() > 0 {
        lemma_awaiting_position(start, gif, sizes.drop_last());
    }
}

/// The controller at the start of the search for `percent` hundredths of
/// `original_size`.
pub open spec fn search_start(original_size: u64, percent: u8) -> Controller {
    Controller {
        percent,
        original_size,
        bracket: bracket_for(percent as int),
        next_step: 0,
        finished: false,
    }
}

/// The search for `percent` composites partial frames before its passes run.
pub open spec fn composites(percent: u8) -> bool {
    1 <= percent <= 99 && !bracket_for(percent as int).skip_normalization
}

/// The sequence as the search takes it up: composited, unless the bracket of
/// the target leaves partial frames alone.
pub open spec fn prepared(gif: GifView, percent: u8) -> GifView {
    if composites(percent) {
        composited(gif)
    } else {
        gif
    }
}

/// `measure` gave `answer` when it was asked about the sequence that the
/// search held after the measurements in `sizes` were handed in.
pub open spec fn answered<F: Fn(&Gif) -> Result<u64, Error>>(
    measure: F,
    start: Controller,
    gif: GifView,
    sizes: Seq<u64>,
    answer: Result<u64, Error>,
) -> bool {
    exists|g: Gif|
        g.wf() && (awaiting(start, gif, sizes) matches Some(state) && state.1 == g@)
            && #[trigger] call_ensures(measure, (&g,), answer)
}

/// Size number `k` of `sizes` is what `measure` gave for the sequence that the
/// search held after the sizes before it.
pub open spec fn measured_at<F: Fn(&Gif) -> Result<u64, Error>>(
    measure: F,
    start: Controller,
    gif: GifView,
    sizes: Seq<u64>,
    k: int,
) -> bool {
    answered(measure, start, gif, sizes.take(k), Ok::<u64, Error>(sizes[k]))
}

/// Every size of `sizes` is what `measure` gave for the sequence that the
/// search held at that point.
pub open spec fn all_measured<F: Fn(&Gif) -> Result<u64, Error>>(
    measure: F,
    start: Controller,
    gif: GifView,
    sizes: Seq<u64>,
) -> bool {
    forall|k: int| 0 <= k < sizes.len() ==> #[trigger] measured_at(measure, start, gif, sizes, k)
}

/// Compresses the sequence towards `target_percent` hundredths of
/// `original_size`.
///
/// Passes run one after the other. After each pass `measure` is asked for the
/// size of the encoding of the sequence as it is then, and the controller
/// decides from the answer whether the search goes on. Returns the sizes
/// measured.
///
/// Fails on a target that is not between 1 and 99, and then changes nothing.
/// Otherwise it fails only with an error that `measure` returned.
pub fn run<F: Fn(&Gif) -> Result<u64, Error>>(
    gif: &mut Gif,
    original_size: u64,
    target_percent: u8,
    measure: F,
) -> (outcome: Result<Vec<u64>, Error>)
    requires
        old(gif).wf(),
        composites(target_percent) ==> fits_canvas(old(gif)@) && old(gif).width * old(gif).height
            * 4 <= usize::MAX,
        forall|g: Gif| g.wf() ==> call_requires(measure, (&g,)),
    ensures
        !(1 <= target_percent <= 99) ==> outcome == Err::<Vec<u64>, Error>(Error::InvalidParameter)
            && final(gif)@ == old(gif)@,
        outcome matches Ok(sizes) ==> 1 <= target_percent <= 99 && search_result(
            search_start(original_size, target_percent),
            prepared(old(gif)@, target_percent),
            sizes@,
        ) == Some(final(gif)@),
        outcome matches Ok(sizes) ==> all_measured(
            measure,
            search_start(original_size, target_percent),
            prepared(old(gif)@, target_percent),
            sizes@,
        ),
        outcome matches Ok(sizes) ==> 1 <= sizes@.len() <= PASS_COUNT,
        outcome matches Err(e) ==> !(1 <= target_percent <= 99) || exists|sizes: Seq<u64>|
            #[trigger] all_measured(
                measure,
                search_start(original_size, target_percent),
                prepared(old(gif)@, target_percent),
                sizes,
            ) && answered(
                measure,
                search_start(original_size, target_percent),
                prepared(old(gif)@, target_percent),
                sizes,
                Err::<u64, Error>(e),
            ),
        final(gif).wf(),
{
    let mut controller = match Controller::new(original_size, target_percent) {
        Ok(controller) => controller,
        Err(e) => {
            return Err(e);
        },
    };
    let ghost start = controller;
    proof {
        lemma_brackets_partition(target_percent as int);
    }
    controller.prepare(gif);
    let ghost taken_up = gif@;
    let mut sizes: Vec<u64> = Vec::new();
    let first = controller.start(gif);
    assert(first is Ok);
    loop
        invariant
            start == search_start(original_size, target_percent),
            taken_up == prepared(old(gif)@, target_percent),
            1 <= target_percent <= 99,
            controller.wf(),
            controller.next_step >= 1,
            !controller.finished,
            gif.wf(),
            awaiting(start, taken_up, sizes@) == Some((controller, gif@)),
            all_measured(measure, start, taken_up, sizes@),
            forall|g: Gif| g.wf() ==> call_requires(measure, (&g,)),
        decreases PASS_COUNT - controller.next_step,
    {
        let ghost held = *gif;
        let ghost measured = sizes@;
        let size: u64 = match measure(&*gif) {
            Ok(size) => size,
            Err(e) => {
                assert(held.wf() && call_ensures(measure, (&held,), Err::<u64, Error>(e)));
                assert(answered(measure, start, taken_up, measured, Err::<u64, Error>(e)));
                return Err(e);
            },
        };
        sizes.push(size);
        proof {
            assert(sizes@.drop_last() =~= measured);
            assert(held.wf() && call_ensures(measure, (&held,), Ok::<u64, Error>(size)));
            assert(answered(measure, start, taken_up, measured, Ok::<u64, Error>(size)));
            assert forall|k: int| 0 <= k < sizes@.len() implies #[trigger] measured_at(
                measure,
                start,
                taken_up,
                sizes@,
                k,
            ) by {
                if k < measured.len() {
                    assert(sizes@.take(k) =~= measured.take(k));
                    assert(measured_at(measure, start, taken_up, measured, k));
                } else {
                    assert(sizes@.take(k) =~= measured);
                }
            }
            lemma_brackets_partition(target_percent as int);
        }
        let action = controller.observe(gif, size);
        match action {
            Ok(Action::Measure) => {},
            Ok(Action::Finish) => {
                proof {
                    lemma_search_is_bounded(start, taken_up, sizes@);
                }
                return Ok(sizes);
            },
            Err(e) => {
                assert(false);
                return Err(e);
            },
        }
    }
}

} // verus!
