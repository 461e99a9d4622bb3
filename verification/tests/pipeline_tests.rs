use gif_toolkit::compositor::{draw_centered, Compositor};
use gif_toolkit::container::{
    encoder_frame, encoder_palette, first_transparent_pixel, frame_from_decoded, frame_settings,
    gif_from_decoded, normalize_delay, palette_from_bytes, palette_to_bytes, repeat_setting,
    Repeat,
};
use gif_toolkit::error::Error;
use gif_toolkit::io::{
    judge_input, judge_output, validate_input_file, validate_output_path, PathError,
};
use gif_toolkit::model::{DisposalMethod, Frame, Gif};
use gif_toolkit::operations::compress::{
    apply_pass, normalize_frames, reduce_colors, run, Action, Controller,
};
use gif_toolkit::operations::policy::{
    brackets, compute_target_size, find_bracket, judge, needs_fallback, Pass, Verdict,
};
use gif_toolkit::operations::tune::{has_partial_frame, normalize_frames_composited};

const RED: [u8; 4] = [255, 0, 0, 255];
const GREEN: [u8; 4] = [0, 255, 0, 255];
const BLUE: [u8; 4] = [0, 0, 255, 255];
const WHITE: [u8; 4] = [255, 255, 255, 255];
const BLACK: [u8; 4] = [0, 0, 0, 255];
const YELLOW: [u8; 4] = [255, 255, 0, 255];
const CLEAR: [u8; 4] = [0, 0, 0, 0];

fn frame_of(width: u16, height: u16, pixels: &[[u8; 4]], disposal: DisposalMethod) -> Frame {
    let mut data = Vec::new();
    for pixel in pixels {
        data.extend_from_slice(pixel);
    }
    let mut frame = Frame::from_rgba(data, width, height);
    frame.disposal = disposal;
    frame
}

fn pixel(frame: &Frame, x: usize, y: usize) -> [u8; 4] {
    let at = (y * frame.width as usize + x) * 4;
    [frame.data[at], frame.data[at + 1], frame.data[at + 2], frame.data[at + 3]]
}

fn sample() -> Gif {
    let mut gif = Gif::new();
    gif.add_frame(frame_of(4, 4, &[RED; 16], DisposalMethod::Keep));
    gif.add_frame(frame_of(2, 2, &[GREEN, CLEAR, BLUE, GREEN], DisposalMethod::RestoreBackground));
    gif.add_frame(frame_of(2, 2, &[WHITE; 4], DisposalMethod::RestorePrevious));
    gif.add_frame(frame_of(2, 2, &[BLACK, CLEAR, CLEAR, CLEAR], DisposalMethod::Keep));
    gif.add_frame(frame_of(2, 1, &[YELLOW, YELLOW], DisposalMethod::Unspecified));
    gif
}

#[test]
fn compositing_threads_the_canvas_through_the_frames() {
    let mut gif = sample();
    gif.frames[1].delay = 33;
    gif.frames[1].transparent = true;
    assert!(has_partial_frame(&gif));
    normalize_frames_composited(&mut gif);
    assert_eq!(gif.frame_count(), 5);
    for frame in &gif.frames {
        assert_eq!(frame.width, 4);
        assert_eq!(frame.height, 4);
        assert_eq!(frame.data.len(), 64);
    }
    // the full frame is recorded as it is
    assert!(gif.frames[0].data.chunks(4).all(|p| p == RED));
    // the second frame is drawn on the first; its transparent pixel lets red through
    let second = &gif.frames[1];
    assert_eq!(pixel(second, 0, 0), RED);
    assert_eq!(pixel(second, 1, 1), GREEN);
    assert_eq!(pixel(second, 2, 1), RED);
    assert_eq!(pixel(second, 1, 2), BLUE);
    assert_eq!(pixel(second, 2, 2), GREEN);
    assert_eq!(pixel(second, 3, 3), RED);
    assert_eq!(second.delay, 33);
    assert!(second.transparent);
    assert_eq!(second.disposal, DisposalMethod::RestoreBackground);
    // after restore-to-background the third frame meets a transparent canvas
    let third = &gif.frames[2];
    assert_eq!(pixel(third, 0, 0), CLEAR);
    assert_eq!(pixel(third, 1, 1), WHITE);
    assert_eq!(pixel(third, 2, 2), WHITE);
    assert_eq!(pixel(third, 3, 2), CLEAR);
    // after restore-to-previous the fourth frame meets the canvas from before the third
    let fourth = &gif.frames[3];
    assert_eq!(pixel(fourth, 1, 1), BLACK);
    assert_eq!(pixel(fourth, 2, 1), CLEAR);
    assert_eq!(pixel(fourth, 2, 2), CLEAR);
    // the fourth frame is kept, and the fifth is centred in a row of its own
    let fifth = &gif.frames[4];
    assert_eq!(pixel(fifth, 0, 1), CLEAR);
    assert_eq!(pixel(fifth, 1, 1), YELLOW);
    assert_eq!(pixel(fifth, 2, 1), YELLOW);
    assert_eq!(pixel(fifth, 3, 1), CLEAR);
    assert_eq!(pixel(fifth, 1, 2), CLEAR);
    assert_eq!(fifth.disposal, DisposalMethod::Unspecified);
}

#[test]
fn compositing_without_partial_frames_changes_nothing() {
    let mut gif = Gif::new();
    gif.add_frame(frame_of(2, 1, &[RED, CLEAR], DisposalMethod::RestoreBackground));
    gif.add_frame(frame_of(2, 1, &[CLEAR, BLUE], DisposalMethod::Keep));
    assert!(!has_partial_frame(&gif));
    normalize_frames_composited(&mut gif);
    assert_eq!(gif.frames[0].data, vec![255, 0, 0, 255, 0, 0, 0, 0]);
    assert_eq!(gif.frames[1].data, vec![0, 0, 0, 0, 0, 0, 255, 255]);
    let mut empty = Gif::new();
    normalize_frames_composited(&mut empty);
    assert_eq!(empty.frame_count(), 0);
}

#[test]
fn a_full_frame_replaces_the_canvas_outright() {
    let mut gif = Gif::new();
    gif.add_frame(frame_of(2, 1, &[RED, RED], DisposalMethod::Keep));
    gif.add_frame(frame_of(2, 1, &[CLEAR, BLUE], DisposalMethod::Keep));
    gif.add_frame(frame_of(1, 1, &[CLEAR], DisposalMethod::Keep));
    normalize_frames_composited(&mut gif);
    // the second frame is full: its transparent pixel is not filled from the first
    assert_eq!(gif.frames[1].data, vec![0, 0, 0, 0, 0, 0, 255, 255]);
    // the third frame is partial and transparent: it shows the second
    assert_eq!(gif.frames[2].data, vec![0, 0, 0, 0, 0, 0, 255, 255]);
    assert_eq!(gif.frames[2].width, 2);
}

#[test]
fn normalization_before_compression_is_the_compositing() {
    let mut a = sample();
    let mut b = sample();
    normalize_frames(&mut a);
    normalize_frames_composited(&mut b);
    for (x, y) in a.frames.iter().zip(b.frames.iter()) {
        assert_eq!(x.data, y.data);
    }
}

#[test]
fn compositor_shows_frame_by_frame() {
    let mut compositor = Compositor::new(3, 3);
    assert_eq!(compositor.canvas, vec![0u8; 36]);
    let dot = frame_of(1, 1, &[GREEN], DisposalMethod::Keep);
    let shown = compositor.show(&dot);
    assert_eq!(shown.width, 3);
    assert_eq!(pixel(&shown, 1, 1), GREEN);
    assert_eq!(pixel(&shown, 0, 0), CLEAR);
    assert_eq!(compositor.canvas, shown.data);
    let wipe = frame_of(1, 1, &[RED], DisposalMethod::RestoreBackground);
    let shown = compositor.show(&wipe);
    assert_eq!(pixel(&shown, 1, 1), RED);
    assert_eq!(compositor.canvas, vec![0u8; 36]);
}

#[test]
fn drawing_centres_odd_margins_towards_the_top_left() {
    let mut canvas = vec![9u8; 5 * 4 * 4];
    let frame = frame_of(2, 1, &[RED, BLUE], DisposalMethod::Keep);
    draw_centered(&mut canvas, 5, 4, &frame);
    // left = (5 - 2) / 2 = 1, top = (4 - 1) / 2 = 1
    let at = (1 * 5 + 1) * 4;
    assert_eq!(&canvas[at..at + 8], &[255, 0, 0, 255, 0, 0, 255, 255]);
    let untouched = canvas.iter().filter(|&&b| b == 9).count();
    assert_eq!(untouched, 5 * 4 * 4 - 8);
}

#[test]
fn brackets_cover_every_target_once() {
    let table = brackets();
    assert_eq!(table.len(), 9);
    for percent in 1..=99u8 {
        let covering = table
            .iter()
            .filter(|b| b.min_percent <= percent && percent <= b.max_percent)
            .count();
        assert_eq!(covering, 1);
        let found = find_bracket(percent).unwrap();
        assert!(found.min_percent <= percent && percent <= found.max_percent);
        assert_eq!(found.colors, 256);
        assert!(found.skip_normalization);
        assert_eq!(found.dedup_threshold, None);
    }
    assert_eq!(find_bracket(0), None);
    assert_eq!(find_bracket(100), None);
    assert_eq!(find_bracket(255), None);
}

#[test]
fn brackets_name_their_passes() {
    let gentle = find_bracket(95).unwrap();
    for step in 0..6 {
        assert_eq!(gentle.pass(step), Pass::Skip);
    }
    let high = find_bracket(85).unwrap();
    assert_eq!(high.pass(2), Pass::Lossy { quality: 98 });
    assert_eq!(high.pass(4), Pass::Skip);
    let middle = find_bracket(50).unwrap();
    assert_eq!(middle.pass(0), Pass::Skip);
    assert_eq!(middle.pass(1), Pass::Skip);
    assert_eq!(middle.pass(2), Pass::Lossy { quality: 92 });
    assert_eq!(middle.pass(3), Pass::Skip);
    assert_eq!(middle.pass(4), Pass::Lossy { quality: 86 });
    assert_eq!(middle.pass(5), Pass::Skip);
    let harsh = find_bracket(1).unwrap();
    assert_eq!(harsh.pass(2), Pass::Lossy { quality: 82 });
    assert_eq!(harsh.pass(4), Pass::Lossy { quality: 76 });
}

#[test]
fn target_size_rounds_down() {
    assert_eq!(compute_target_size(1000, 50), 500);
    assert_eq!(compute_target_size(999, 50), 499);
    assert_eq!(compute_target_size(10, 1), 0);
    assert_eq!(compute_target_size(u64::MAX, 99), 18262276632972456098);
}

#[test]
fn verdicts_follow_the_rule_of_the_range() {
    // 90 and up: within ten points, or after the fourth pass
    assert_eq!(judge(90, 0, 1000, 1000), Verdict::Reached);
    assert_eq!(judge(90, 0, 1001, 1000), Verdict::Continue);
    assert_eq!(judge(90, 3, 5000, 1000), Verdict::Reached);
    // 70 and up: within fifteen points, and after the fourth pass
    assert_eq!(judge(70, 2, 700, 1000), Verdict::Continue);
    assert_eq!(judge(70, 3, 850, 1000), Verdict::Reached);
    assert_eq!(judge(70, 3, 851, 1000), Verdict::Continue);
    assert_eq!(judge(70, 1, 349, 1000), Verdict::Abort);
    // 40 and up: from five points below to ten points above
    assert_eq!(judge(50, 0, 450, 1000), Verdict::Reached);
    assert_eq!(judge(50, 0, 600, 1000), Verdict::Reached);
    assert_eq!(judge(50, 0, 601, 1000), Verdict::Continue);
    assert_eq!(judge(50, 0, 449, 1000), Verdict::Continue);
    assert_eq!(judge(50, 0, 249, 1000), Verdict::Abort);
    // below 40: within five points
    assert_eq!(judge(30, 0, 350, 1000), Verdict::Reached);
    assert_eq!(judge(30, 0, 351, 1000), Verdict::Continue);
    // 20 and below never aborts; below 15 being on target is enough
    assert_eq!(judge(20, 0, 10, 1000), Verdict::Reached);
    assert_eq!(judge(10, 4, 100, 1000), Verdict::Reached);
    assert_eq!(judge(10, 4, 151, 1000), Verdict::Continue);
}

#[test]
fn fallback_is_for_missed_targets_below_70() {
    assert!(needs_fallback(50, Verdict::Continue, 501, 1000));
    assert!(!needs_fallback(50, Verdict::Continue, 500, 1000));
    assert!(!needs_fallback(50, Verdict::Reached, 600, 1000));
    assert!(!needs_fallback(70, Verdict::Continue, 900, 1000));
    assert!(needs_fallback(69, Verdict::Continue, 900, 1000));
    assert!(!needs_fallback(50, Verdict::Abort, 100, 1000));
}

#[test]
fn passes_apply_to_the_sequence() {
    let mut gif = Gif::new();
    gif.add_frame(frame_of(1, 1, &[[255, 100, 7, 255]], DisposalMethod::Keep));
    gif.add_frame(frame_of(1, 1, &[[255, 100, 7, 255]], DisposalMethod::Keep));
    assert_eq!(apply_pass(&mut gif, Pass::Skip), Ok(()));
    assert_eq!(gif.frames[0].data, vec![255, 100, 7, 255]);
    assert_eq!(apply_pass(&mut gif, Pass::Lossy { quality: 90 }), Ok(()));
    assert_eq!(gif.frames[0].data, vec![250, 100, 0, 255]);
    assert_eq!(apply_pass(&mut gif, Pass::ReduceColors { max_colors: 256 }), Ok(()));
    assert_eq!(gif.frames[0].data, vec![250, 100, 0, 255]);
    assert_eq!(apply_pass(&mut gif, Pass::Deduplicate { threshold: 1 }), Ok(()));
    assert_eq!(gif.frame_count(), 1);
    assert_eq!(gif.frames[0].delay, 20);
}

fn one_pixel() -> Gif {
    let mut gif = Gif::new();
    gif.add_frame(frame_of(1, 1, &[[255, 100, 7, 255]], DisposalMethod::Keep));
    gif
}

#[test]
fn controller_refuses_targets_outside_of_1_to_99() {
    assert_eq!(Controller::new(1000, 0).err(), Some(Error::InvalidParameter));
    assert_eq!(Controller::new(1000, 100).err(), Some(Error::InvalidParameter));
    let controller = Controller::new(1000, 99).unwrap();
    assert_eq!(controller.percent, 99);
    assert_eq!(controller.original_size, 1000);
    assert_eq!(controller.next_step, 0);
    assert!(!controller.finished);
}

#[test]
fn controller_stops_when_the_size_is_near_the_target() {
    let mut gif = one_pixel();
    let mut controller = Controller::new(1000, 50).unwrap();
    controller.prepare(&mut gif);
    assert_eq!(controller.start(&mut gif), Ok(Action::Measure));
    assert_eq!(controller.next_step, 1);
    assert_eq!(controller.observe(&mut gif, 700), Ok(Action::Measure));
    assert_eq!(gif.frames[0].data, vec![255, 100, 7, 255]);
    // the third pass is the first lossy one: quality 92, step 8
    assert_eq!(controller.observe(&mut gif, 700), Ok(Action::Measure));
    assert_eq!(controller.next_step, 3);
    assert_eq!(gif.frames[0].data, vec![248, 96, 0, 255]);
    assert_eq!(controller.observe(&mut gif, 560), Ok(Action::Finish));
    assert!(controller.finished);
    assert_eq!(gif.frames[0].data, vec![248, 96, 0, 255]);
}

#[test]
fn controller_falls_back_when_all_passes_miss() {
    let mut gif = one_pixel();
    let mut controller = Controller::new(1000, 50).unwrap();
    assert_eq!(controller.start(&mut gif), Ok(Action::Measure));
    for _ in 0..4 {
        assert_eq!(controller.observe(&mut gif, 900), Ok(Action::Measure));
    }
    assert_eq!(controller.next_step, 5);
    // quality 92 then 86: 255 -> 248 -> 238, 100 -> 96 -> 84, 7 -> 0
    assert_eq!(gif.frames[0].data, vec![238, 84, 0, 255]);
    assert_eq!(controller.observe(&mut gif, 900), Ok(Action::Finish));
    // the extra pass at quality 70: 238 -> 210, 84 -> 60
    assert_eq!(gif.frames[0].data, vec![210, 60, 0, 255]);
}

#[test]
fn controller_accepts_the_shortfall_of_high_targets() {
    let mut gif = one_pixel();
    let mut controller = Controller::new(1000, 75).unwrap();
    assert_eq!(controller.start(&mut gif), Ok(Action::Measure));
    for _ in 0..4 {
        assert_eq!(controller.observe(&mut gif, 990), Ok(Action::Measure));
    }
    // quality 96 then 94: 255 -> 252 -> 252, 100 -> 100 -> 96, 7 -> 4 -> 0
    assert_eq!(gif.frames[0].data, vec![252, 96, 0, 255]);
    assert_eq!(controller.observe(&mut gif, 990), Ok(Action::Finish));
    assert_eq!(gif.frames[0].data, vec![252, 96, 0, 255]);
}

#[test]
fn controller_aborts_when_the_size_falls_far_below_the_target() {
    let mut gif = one_pixel();
    let mut controller = Controller::new(1000, 50).unwrap();
    assert_eq!(controller.start(&mut gif), Ok(Action::Measure));
    assert_eq!(controller.observe(&mut gif, 100), Ok(Action::Finish));
    assert_eq!(gif.frames[0].data, vec![255, 100, 7, 255]);
}

#[test]
fn run_searches_with_the_sizes_it_is_given() {
    let mut gif = one_pixel();
    let sizes = run(&mut gif, 1000, 50, |_: &Gif| Ok(900)).unwrap();
    assert_eq!(sizes, vec![900, 900, 900, 900, 900]);
    assert_eq!(gif.frames[0].data, vec![210, 60, 0, 255]);

    let mut gif = one_pixel();
    let sizes = run(&mut gif, 1000, 50, |g: &Gif| Ok(if g.frames[0].data[0] == 255 { 700 } else { 560 }))
        .unwrap();
    assert_eq!(sizes, vec![700, 700, 560]);
    assert_eq!(gif.frames[0].data, vec![248, 96, 0, 255]);

    let mut gif = one_pixel();
    let sizes = run(&mut gif, 1000, 95, |_: &Gif| Ok(1040)).unwrap();
    assert_eq!(sizes, vec![1040]);
    assert_eq!(gif.frames[0].data, vec![255, 100, 7, 255]);
}

#[test]
fn run_fails_on_bad_targets_and_failed_measurements() {
    let mut gif = one_pixel();
    assert_eq!(run(&mut gif, 1000, 0, |_: &Gif| Ok(1)), Err(Error::InvalidParameter));
    assert_eq!(run(&mut gif, 1000, 100, |_: &Gif| Ok(1)), Err(Error::InvalidParameter));
    assert_eq!(gif.frames[0].data, vec![255, 100, 7, 255]);
    assert_eq!(run(&mut gif, 1000, 50, |_: &Gif| Err(Error::CodecFailure)), Err(Error::CodecFailure));
    assert_eq!(run(&mut gif, 1000, 50, |_: &Gif| Err(Error::IoFailure)), Err(Error::IoFailure));
}

#[test]
fn palettes_convert_between_entries_and_bytes() {
    assert_eq!(palette_from_bytes(&vec![1, 2, 3, 4, 5, 6]), vec![[1, 2, 3], [4, 5, 6]]);
    assert_eq!(palette_from_bytes(&vec![1, 2, 3, 4, 5]), vec![[1, 2, 3]]);
    assert_eq!(palette_from_bytes(&vec![1, 2]), Vec::<[u8; 3]>::new());
    assert_eq!(palette_to_bytes(&vec![[1, 2, 3], [4, 5, 6]]), vec![1, 2, 3, 4, 5, 6]);
    assert_eq!(palette_to_bytes(&Vec::new()), Vec::<u8>::new());
}

#[test]
fn decoded_frames_get_a_delay_of_at_least_one() {
    assert_eq!(normalize_delay(0), 1);
    assert_eq!(normalize_delay(1), 1);
    assert_eq!(normalize_delay(65535), 65535);
    let frame = frame_from_decoded(vec![1, 2, 3, 4], 1, 1, 0, Some(3), DisposalMethod::RestorePrevious);
    assert_eq!(frame.delay, 1);
    assert!(frame.transparent);
    assert_eq!(frame.disposal, DisposalMethod::RestorePrevious);
    assert_eq!(frame.data, vec![1, 2, 3, 4]);
    let frame = frame_from_decoded(vec![1, 2, 3, 4], 1, 1, 25, None, DisposalMethod::Unspecified);
    assert_eq!(frame.delay, 25);
    assert!(!frame.transparent);
}

#[test]
fn decoded_sequences_repeat_forever() {
    let frames = vec![Frame::new(2, 2), Frame::new(1, 1)];
    let gif = gif_from_decoded(7, 5, Some(vec![9, 8, 7, 6]), frames);
    assert_eq!(gif.width, 7);
    assert_eq!(gif.height, 5);
    assert_eq!(gif.loop_count, 0);
    assert_eq!(gif.global_palette, Some(vec![[9, 8, 7]]));
    assert_eq!(gif.frame_count(), 2);
    let bare = gif_from_decoded(7, 5, None, Vec::new());
    assert_eq!(bare.global_palette, None);
}

#[test]
fn frames_go_to_the_encoder_centred_and_timed() {
    let mut frame = frame_of(2, 2, &[RED, RED, CLEAR, RED], DisposalMethod::RestoreBackground);
    frame.delay = 0;
    let settings = frame_settings(&frame, 7, 4);
    assert_eq!(settings.delay, 1);
    assert_eq!(settings.left, 2);
    assert_eq!(settings.top, 1);
    assert_eq!(settings.disposal, DisposalMethod::RestoreBackground);
    assert_eq!(settings.transparent_index, None);
    frame.transparent = true;
    frame.delay = 9;
    let settings = frame_settings(&frame, 2, 2);
    assert_eq!(settings.delay, 9);
    assert_eq!(settings.left, 0);
    assert_eq!(settings.top, 0);
    assert_eq!(settings.transparent_index, Some(2));
    let mut opaque = frame_of(1, 1, &[RED], DisposalMethod::Keep);
    opaque.transparent = true;
    assert_eq!(frame_settings(&opaque, 1, 1).transparent_index, None);
}

#[test]
fn the_transparent_index_wraps_at_256() {
    let mut pixels = vec![RED; 300];
    pixels[260] = CLEAR;
    pixels[280] = CLEAR;
    let mut frame = frame_of(300, 1, &pixels, DisposalMethod::Keep);
    frame.transparent = true;
    assert_eq!(first_transparent_pixel(&frame.data), Some(260));
    assert_eq!(frame_settings(&frame, 300, 1).transparent_index, Some(4));
    assert_eq!(first_transparent_pixel(&vec![1, 2, 3, 4, 5, 6, 7]), None);
}

#[test]
fn frames_are_indexed_for_the_encoder() {
    let mut frame = frame_of(2, 2, &[RED, BLUE, RED, [9, 9, 9, 0]], DisposalMethod::RestorePrevious);
    frame.delay = 0;
    let prepared = encoder_frame(&frame, 4, 2);
    assert_eq!(prepared.width, 2);
    assert_eq!(prepared.height, 2);
    assert_eq!(prepared.indices.len(), 4);
    assert_eq!(prepared.palette.len() % 3, 0);
    let color = |i: usize| {
        let at = prepared.indices[i] as usize * 3;
        [prepared.palette[at], prepared.palette[at + 1], prepared.palette[at + 2]]
    };
    assert_eq!(color(0), [255, 0, 0]);
    assert_eq!(color(1), [0, 0, 255]);
    assert_eq!(color(2), [255, 0, 0]);
    assert_eq!(prepared.transparent, Some(prepared.indices[3]));
    assert_eq!(prepared.delay, 1);
    assert_eq!(prepared.disposal, DisposalMethod::RestorePrevious);
    assert_eq!(prepared.left, 1);
    assert_eq!(prepared.top, 0);

    frame.transparent = true;
    let prepared = encoder_frame(&frame, 2, 2);
    assert_eq!(prepared.transparent, Some(3));
    assert_eq!(prepared.left, 0);

    let opaque = frame_of(1, 1, &[GREEN], DisposalMethod::Keep);
    let prepared = encoder_frame(&opaque, 1, 1);
    assert_eq!(prepared.palette, vec![0, 255, 0]);
    assert_eq!(prepared.indices, vec![0]);
    assert_eq!(prepared.transparent, None);
}

#[test]
fn loop_count_zero_means_forever() {
    let mut gif = Gif::new();
    assert_eq!(repeat_setting(&gif), Repeat::Infinite);
    gif.loop_count = 3;
    assert_eq!(repeat_setting(&gif), Repeat::Finite(3));
    assert_eq!(encoder_palette(&gif), Vec::<u8>::new());
    gif.global_palette = Some(vec![[1, 2, 3], [4, 5, 6]]);
    assert_eq!(encoder_palette(&gif), vec![1, 2, 3, 4, 5, 6]);
}

#[test]
fn paths_are_judged_by_what_the_file_system_says() {
    assert_eq!(judge_input(false, false), Err(PathError::InputMissing));
    assert_eq!(judge_input(false, true), Err(PathError::InputMissing));
    assert_eq!(judge_input(true, false), Err(PathError::InputNotAFile));
    assert_eq!(judge_input(true, true), Ok(()));
    assert_eq!(judge_output(None), Ok(()));
    assert_eq!(judge_output(Some(true)), Ok(()));
    assert_eq!(judge_output(Some(false)), Err(PathError::OutputDirectoryMissing));
}

#[test]
fn paths_are_probed_on_the_file_system() {
    assert_eq!(
        validate_input_file("/no/such/directory/anywhere/input.gif"),
        Err(PathError::InputMissing)
    );
    assert_eq!(validate_input_file("/"), Err(PathError::InputNotAFile));
    assert_eq!(
        validate_output_path("/no/such/directory/anywhere/output.gif"),
        Err(PathError::OutputDirectoryMissing)
    );
    assert_eq!(validate_output_path("/output.gif"), Ok(()));
    assert_eq!(validate_output_path("/"), Ok(()));
}

fn encode(gif: &Gif) -> Vec<u8> {
    let palette = encoder_palette(gif);
    let mut encoder = gif::Encoder::new(Vec::new(), gif.width, gif.height, &palette).unwrap();
    let repeat = match repeat_setting(gif) {
        Repeat::Infinite => gif::Repeat::Infinite,
        Repeat::Finite(n) => gif::Repeat::Finite(n),
    };
    encoder.set_repeat(repeat).unwrap();
    for frame in &gif.frames {
        let prepared = encoder_frame(frame, gif.width, gif.height);
        let mut image = gif::Frame::from_palette_pixels(
            prepared.width,
            prepared.height,
            prepared.indices,
            prepared.palette,
            prepared.transparent,
        );
        image.delay = prepared.delay;
        image.dispose = match prepared.disposal {
            DisposalMethod::Keep => gif::DisposalMethod::Keep,
            DisposalMethod::RestoreBackground => gif::DisposalMethod::Background,
            DisposalMethod::RestorePrevious => gif::DisposalMethod::Previous,
            DisposalMethod::Unspecified => gif::DisposalMethod::Any,
        };
        image.left = prepared.left;
        image.top = prepared.top;
        encoder.write_frame(&image).unwrap();
    }
    encoder.into_inner().unwrap()
}

fn decode(bytes: &[u8]) -> Gif {
    let mut options = gif::DecodeOptions::new();
    options.set_color_output(gif::ColorOutput::RGBA);
    let mut decoder = options.read_info(bytes).unwrap();
    let (width, height) = (decoder.width(), decoder.height());
    let palette = decoder.global_palette().map(|p| p.to_vec());
    let mut frames = Vec::new();
    while let Some(image) = decoder.read_next_frame().unwrap() {
        let disposal = match image.dispose {
            gif::DisposalMethod::Keep => DisposalMethod::Keep,
            gif::DisposalMethod::Background => DisposalMethod::RestoreBackground,
            gif::DisposalMethod::Previous => DisposalMethod::RestorePrevious,
            gif::DisposalMethod::Any => DisposalMethod::Unspecified,
        };
        frames.push(frame_from_decoded(
            image.buffer.to_vec(),
            image.width,
            image.height,
            image.delay,
            image.transparent,
            disposal,
        ));
    }
    gif_from_decoded(width, height, palette, frames)
}

#[test]
fn test_create_and_save_gif() {
    let width = 50u16;
    let height = 50u16;

    let mut gif = Gif::new();

    let mut frame1 = Frame::new(width, height);
    for pixel in frame1.data.chunks_exact_mut(4) {
        pixel[0] = 255;
        pixel[1] = 0;
        pixel[2] = 0;
        pixel[3] = 255;
    }
    frame1.delay = 10;
    gif.add_frame(frame1);

    let mut frame2 = Frame::new(width, height);
    for pixel in frame2.data.chunks_exact_mut(4) {
        pixel[0] = 0;
        pixel[1] = 255;
        pixel[2] = 0;
        pixel[3] = 255;
    }
    frame2.delay = 10;
    gif.add_frame(frame2);

    let mut frame3 = Frame::new(width, height);
    for pixel in frame3.data.chunks_exact_mut(4) {
        pixel[0] = 0;
        pixel[1] = 0;
        pixel[2] = 255;
        pixel[3] = 255;
    }
    frame3.delay = 10;
    gif.add_frame(frame3);

    assert_eq!(gif.width, width);
    assert_eq!(gif.height, height);
    assert_eq!(gif.frame_count(), 3);
    assert_eq!(gif.total_duration(), 30);

    let bytes = encode(&gif);
    assert!(bytes.len() > 0);

    let back = decode(&bytes);
    assert_eq!(back.width, width);
    assert_eq!(back.height, height);
    assert_eq!(back.frame_count(), 3);
    assert_eq!(back.total_duration(), 30);
    assert_eq!(&back.frames[0].data[0..4], &[255, 0, 0, 255]);
    assert_eq!(&back.frames[1].data[0..4], &[0, 255, 0, 255]);
    assert_eq!(&back.frames[2].data[0..4], &[0, 0, 255, 255]);
}

#[test]
fn run_measures_real_encodings() {
    let mut gif = Gif::new();
    let mut data = Vec::new();
    for i in 0..(32u32 * 32) {
        data.extend_from_slice(&[(i % 251) as u8, (i % 83) as u8, (i % 7) as u8, 255]);
    }
    gif.add_frame(Frame::from_rgba(data, 32, 32));
    let original = encode(&gif).len() as u64;
    let sizes = run(&mut gif, original, 50, |g: &Gif| Ok(encode(g).len() as u64)).unwrap();
    assert!(sizes.len() >= 1 && sizes.len() <= 5);
    assert_eq!(sizes[0], original);
    assert_eq!(gif.frames[0].data.len(), 32 * 32 * 4);
}

#[test]
fn controller_composites_when_its_bracket_asks_for_it() {
    let mut controller = Controller::new(1000, 50).unwrap();
    let mut untouched = sample();
    controller.prepare(&mut untouched);
    assert_eq!(untouched.frames[1].width, 2);
    assert_eq!(untouched.frames[1].data.len(), 16);

    controller.bracket.skip_normalization = false;
    let mut prepared = sample();
    let mut composited = sample();
    controller.prepare(&mut prepared);
    normalize_frames_composited(&mut composited);
    assert_eq!(prepared.frame_count(), 5);
    for (a, b) in prepared.frames.iter().zip(composited.frames.iter()) {
        assert_eq!(a.width, 4);
        assert_eq!(a.height, 4);
        assert_eq!(a.data, b.data);
    }
    assert_eq!(pixel(&prepared.frames[1], 1, 1), GREEN);
    assert_eq!(pixel(&prepared.frames[1], 2, 1), RED);
}

#[test]
fn compositing_gives_every_frame_the_canvas_size_even_without_area() {
    let mut gif = Gif { frames: vec![], width: 0, height: 5, global_palette: None, loop_count: 0 };
    let mut frame = Frame::new(0, 3);
    frame.delay = 4;
    frame.disposal = DisposalMethod::RestorePrevious;
    gif.add_frame(frame);
    gif.add_frame(Frame::new(0, 0));
    normalize_frames_composited(&mut gif);
    assert_eq!(gif.frame_count(), 2);
    for frame in &gif.frames {
        assert_eq!(frame.width, 0);
        assert_eq!(frame.height, 5);
        assert_eq!(frame.data.len(), 0);
    }
    assert_eq!(gif.frames[0].delay, 4);
    assert_eq!(gif.frames[0].disposal, DisposalMethod::RestorePrevious);
    assert_eq!(gif.width, 0);
    assert_eq!(gif.height, 5);
}

#[test]
fn compositing_twice_is_compositing_once() {
    let mut once = sample();
    let mut twice = sample();
    normalize_frames_composited(&mut once);
    normalize_frames_composited(&mut twice);
    normalize_frames_composited(&mut twice);
    for (a, b) in once.frames.iter().zip(twice.frames.iter()) {
        assert_eq!(a.data, b.data);
        assert_eq!(a.width, b.width);
        assert_eq!(a.height, b.height);
    }
}

#[test]
fn color_reduction_leaves_at_most_the_colors_asked_for() {
    let mut gif = Gif::new();
    let mut first = Vec::new();
    let mut second = Vec::new();
    for i in 0..100u32 {
        first.extend_from_slice(&[(i * 2) as u8, (200 - i) as u8, (i % 9 * 20) as u8, 255]);
        second.extend_from_slice(&[(i * 2) as u8, (200 - i) as u8, (i % 9 * 20) as u8, 1 + (i % 3) as u8]);
    }
    gif.add_frame(Frame::from_rgba(first.clone(), 10, 10));
    gif.add_frame(Frame::from_rgba(second, 10, 10));
    reduce_colors(&mut gif, 3);
    let mut colors: Vec<[u8; 3]> = Vec::new();
    for frame in &gif.frames {
        for q in frame.data.chunks(4) {
            if !colors.contains(&[q[0], q[1], q[2]]) {
                colors.push([q[0], q[1], q[2]]);
            }
        }
    }
    assert!(colors.len() <= 3);
    // pixels that had one colour have one colour afterwards, in both frames
    for (a, b) in gif.frames[0].data.chunks(4).zip(gif.frames[1].data.chunks(4)) {
        assert_eq!(&a[0..3], &b[0..3]);
    }
}
