//! Merging runs of frames that look alike.

use vstd::prelude::*;
use crate::error::Error;
use crate::model::frame_views;
use crate::model::lemma_total_delay_push;
use crate::model::total_delay;
use crate::model::Frame;
use crate::model::FrameView;
use crate::model::Gif;
use crate::model::GifView;
use crate::operations::compress::difference::calculate_frame_difference;
use crate::operations::compress::difference::frame_difference;

verus! {

/// The frames after runs of look-alikes were merged.
///
/// The first frame is retained. Each later frame is scored against the frame
/// retained last: below `threshold` its delay is added to that frame and
/// its pixels are dropped, otherwise it is retained itself.
pub open spec fn deduplicated(frames: Seq<FrameView>, threshold: int) -> Seq<FrameView>
    decreases frames.len(),
{
    if frames.len() <= 1 {
        frames
    } else {
        let kept = deduplicated(frames.drop_last(), threshold);
        let retained = kept.last();
        let incoming = frames.last();
        if frame_difference(retained, incoming) < threshold {
            kept.update(
                kept.len() - 1,
                FrameView { delay: retained.delay + incoming.delay, ..retained },
            )
        } else {
            kept.push(incoming)
        }
    }
}

/// Every delay fits in the 16 bits that a frame has for it.
pub open spec fn delays_fit(frames: Seq<FrameView>) -> bool {
    forall|i: int| 0 <= i < frames.len() ==> (#[trigger] frames[i]).delay <= u16::MAX
}

/// Merging never adds a frame, never empties a sequence, keeps the play time,
/// and keeps every buffer in agreement with its dimensions.
pub proof fn lemma_deduplicated_properties(frames: Seq<FrameView>, threshold: int)
    ensures
        deduplicated(frames, threshold).len() <= frames.len(),
        frames.len() > 0 ==> deduplicated(frames, threshold).len() > 0,
        total_delay(deduplicated(frames, threshold)) == total_delay(frames),
        (forall|i: int| 0 <= i < frames.len() ==> (#[trigger] frames[i]).wf()) ==> (forall|i: int|
            0 <= i < deduplicated(frames, threshold).len() ==> (#[trigger] deduplicated(
                frames,
                threshold,
            )[i]).wf()),
    decreases frames.len(),
{
    if frames.len() > 1 {
        let kept = deduplicated(frames.drop_last(), threshold);
        lemma_deduplicated_properties(frames.drop_last(), threshold);
        let retained = kept.last();
        let incoming = frames.last();
        if frame_difference(retained, incoming) < threshold {
            let grown = FrameView { delay: retained.delay + incoming.delay, ..retained };
            let out = kept.update(kept.len() - 1, grown);
            assert(out.drop_last() =~= kept.drop_last());
            assert(out.last() == grown);
        } else {
            lemma_total_delay_push(kept, incoming);
        }
        if forall|i: int| 0 <= i < frames.len() ==> (#[trigger] frames[i]).wf() {
            let earlier = frames.drop_last();
            assert forall|i: int| 0 <= i < earlier.len() implies (#[trigger] earlier[i]).wf() by {
                assert(frames[i].wf());
            }
            assert(incoming.wf());
        }
    }
}

/// What was merged from a prefix stays: with more frames the result only gets
/// longer and its delays only grow.
pub proof fn lemma_deduplicated_grows(frames: Seq<FrameView>, threshold: int, k: int)
    requires
        0 <= k <= frames.len(),
    ensures
        deduplicated(frames.take(k), threshold).len() <= deduplicated(frames, threshold).len(),
        forall|j: int|
            0 <= j < deduplicated(frames.take(k), threshold).len() ==> (#[trigger] deduplicated(
                frames.take(k),
                threshold,
            )[j]).delay <= deduplicated(frames, threshold)[j].delay,
    decreases frames.len() - k,
{
    if k < frames.len() {
        let whole = frames.drop_last();
        assert(whole.take(k) =~= frames.take(k));
        if frames.len() > 1 {
            lemma_deduplicated_grows(whole, threshold, k);
            lemma_deduplicated_properties(whole, threshold);
        } else {
            assert(frames.take(k) =~= Seq::<FrameView>::empty());
        }
    } else {
        assert(frames.take(k) =~= frames);
    }
}

/// Merges runs of look-alike frames into their first frame.
///
/// Succeeds when every merged delay fits in 16 bits. Otherwise nothing is changed.
pub fn deduplicate_frames(gif: &mut Gif, threshold: u8) -> (outcome: Result<(), Error>)
    requires
        old(gif).wf(),
    ensures
        outcome is Ok <==> delays_fit(deduplicated(old(gif)@.frames, threshold as int)),
        outcome is Ok ==> final(gif)@ == (GifView {
            frames: deduplicated(old(gif)@.frames, threshold as int),
            ..old(gif)@
        }),
        outcome is Err ==> outcome == Err::<(), Error>(Error::DelayOverflow) && final(gif)@ == old(gif)@,
        final(gif).wf(),
        final(gif)@.frames.len() <= old(gif)@.frames.len(),
{
    let ghost before = gif@.frames;
    let ghost t = threshold as int;
    if gif.frames.len() <= 1 {
        return Ok(());
    }
    let mut unique: Vec<Frame> = Vec::new();
    unique.push(gif.frames[0].clone());
    assert(before.take(1) =~= seq![before[0]]);
    assert(frame_views(unique@) =~= deduplicated(before.take(1), t));
    let mut i: usize = 1;
    while i < gif.frames.len()
        invariant
            1 <= i <= gif.frames.len(),
            gif@.frames == before,
            gif@ == old(gif)@,
            gif.wf(),
            t == threshold,
            unique@.len() > 0,
            frame_views(unique@) == deduplicated(before.take(i as int), t),
            forall|j: int| 0 <= j < unique@.len() ==> (#[trigger] unique@[j]).wf(),
        decreases gif.frames.len() - i,
    {
        let ghost kept = frame_views(unique@);
        proof {
            assert(before.take(i as int + 1).drop_last() =~= before.take(i as int));
            assert(before.take(i as int + 1).last() == before[i as int]);
            assert(before[i as int].wf());
            assert(kept.last() == unique@[unique@.len() - 1]@);
        }
        let last: usize = unique.len() - 1;
        let diff = calculate_frame_difference(&unique[last], &gif.frames[i]);
        if diff < threshold {
            let extra: u16 = gif.frames[i].delay;
            let mut retained = unique.pop().unwrap();
            if extra > u16::MAX - retained.delay {
                proof {
                    let merged_prefix = deduplicated(before.take(i as int + 1), t);
                    lemma_deduplicated_grows(before, t, i as int + 1);
                    assert(merged_prefix[kept.len() - 1].delay > u16::MAX);
                    assert(deduplicated(before, t)[kept.len() - 1].delay > u16::MAX);
                }
                return Err(Error::DelayOverflow);
            }
            retained.delay = retained.delay + extra;
            unique.push(retained);
            assert(frame_views(unique@) =~= deduplicated(
                before.take(i as int + 1),
                t,
            ));
        } else {
            unique.push(gif.frames[i].clone());
            assert(frame_views(unique@) =~= deduplicated(
                before.take(i as int + 1),
                t,
            ));
        }
        i = i + 1;
    }
    proof {
        assert(before.take(i as int) =~= before);
        lemma_deduplicated_properties(before, t);
        let merged = deduplicated(before, t);
        assert forall|j: int| 0 <= j < merged.len() implies (#[trigger] merged[j]).delay
            <= u16::MAX by {
            assert(merged[j] == unique@[j]@);
        }
    }
    gif.frames = unique;
    Ok(())
}

} // verus!
