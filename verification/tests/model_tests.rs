use gif_toolkit::error::Error;
use gif_toolkit::model::{DisposalMethod, Frame, Gif};

#[test]
fn test_frame_new() {
    let frame = Frame::new(10, 10);
    assert_eq!(frame.width, 10);
    assert_eq!(frame.height, 10);
    assert_eq!(frame.data.len(), 10 * 10 * 4);
    assert_eq!(frame.delay, 10);
    assert!(!frame.transparent);
}

#[test]
fn mod_test_frame_from_rgba() {
    let data = vec![255u8; 100 * 100 * 4];
    let frame = Frame::from_rgba(data, 100, 100);
    assert_eq!(frame.width, 100);
    assert_eq!(frame.height, 100);
    assert_eq!(frame.data.len(), 100 * 100 * 4);
}

#[test]
fn test_gif_new() {
    let gif = Gif::new();
    assert_eq!(gif.width, 0);
    assert_eq!(gif.height, 0);
    assert_eq!(gif.frames.len(), 0);
    assert_eq!(gif.loop_count, 0);
}

#[test]
fn test_gif_add_frame() {
    let mut gif = Gif::new();
    let frame = Frame::new(50, 50);
    gif.add_frame(frame);

    assert_eq!(gif.width, 50);
    assert_eq!(gif.height, 50);
    assert_eq!(gif.frame_count(), 1);
}

#[test]
fn test_gif_total_duration() {
    let mut gif = Gif::new();
    let mut frame1 = Frame::new(10, 10);
    frame1.delay = 20;
    let mut frame2 = Frame::new(10, 10);
    frame2.delay = 30;

    gif.add_frame(frame1);
    gif.add_frame(frame2);

    assert_eq!(gif.total_duration(), 50);
}

#[test]
fn integration_test_test_frame_from_rgba() {
    let data = vec![
        255, 0, 0, 255, // Red pixel
        0, 255, 0, 255, // Green pixel
        0, 0, 255, 255, // Blue pixel
        255, 255, 255, 255, // White pixel
    ];

    let frame = Frame::from_rgba(data, 2, 2);

    assert_eq!(frame.width, 2);
    assert_eq!(frame.height, 2);
    assert_eq!(frame.data.len(), 16);

    assert_eq!(frame.data[0], 255);
    assert_eq!(frame.data[1], 0);
    assert_eq!(frame.data[2], 0);
    assert_eq!(frame.data[3], 255);
}

#[test]
fn test_gif_default() {
    let gif = Gif::default();

    assert_eq!(gif.width, 0);
    assert_eq!(gif.height, 0);
    assert_eq!(gif.frames.len(), 0);
    assert_eq!(gif.loop_count, 0);
    assert!(gif.global_palette.is_none());
}

#[test]
fn test_frame_default_properties() {
    let frame = Frame::new(100, 100);

    assert_eq!(frame.width, 100);
    assert_eq!(frame.height, 100);
    assert_eq!(frame.delay, 10);
    assert!(!frame.transparent);
    assert_eq!(frame.data.len(), 100 * 100 * 4);
}

#[test]
fn test_add_multiple_frames() {
    let mut gif = Gif::new();

    for _ in 0..5 {
        let frame = Frame::new(50, 50);
        gif.add_frame(frame);
    }

    assert_eq!(gif.frame_count(), 5);
    assert_eq!(gif.width, 50);
    assert_eq!(gif.height, 50);
}

#[test]
fn test_total_duration_calculation() {
    let mut gif = Gif::new();

    let mut frame1 = Frame::new(10, 10);
    frame1.delay = 5;

    let mut frame2 = Frame::new(10, 10);
    frame2.delay = 10;

    let mut frame3 = Frame::new(10, 10);
    frame3.delay = 15;

    gif.add_frame(frame1);
    gif.add_frame(frame2);
    gif.add_frame(frame3);

    assert_eq!(gif.total_duration(), 30);
}

#[test]
fn new_frame_is_transparent_and_kept() {
    let frame = Frame::new(3, 2);
    assert!(frame.data.iter().all(|&b| b == 0));
    assert_eq!(frame.disposal, DisposalMethod::Keep);
    assert!(frame.is_well_formed());
}

#[test]
fn empty_frame_has_no_pixels() {
    let frame = Frame::new(0, 7);
    assert_eq!(frame.data.len(), 0);
    assert!(frame.is_well_formed());
}

#[test]
fn well_formedness_compares_length_with_dimensions() {
    let mut frame = Frame::new(2, 2);
    assert!(frame.is_well_formed());
    frame.data.pop();
    assert!(!frame.is_well_formed());

    let mut gif = Gif::new();
    gif.add_frame(Frame::new(2, 2));
    assert!(gif.is_well_formed());
    gif.add_frame(frame);
    assert!(!gif.is_well_formed());
}

#[test]
fn second_frame_does_not_change_the_canvas() {
    let mut gif = Gif::new();
    gif.add_frame(Frame::new(4, 3));
    gif.add_frame(Frame::new(2, 1));
    assert_eq!(gif.width, 4);
    assert_eq!(gif.height, 3);
    assert_eq!(gif.frame_count(), 2);
    assert_eq!(gif.frames[1].width, 2);
}

#[test]
fn total_duration_of_nothing_is_zero() {
    let gif = Gif::new();
    assert_eq!(gif.total_duration(), 0);
    assert_eq!(gif.checked_total_duration(), Some(0));
}

#[test]
fn checked_total_duration_reports_overflow() {
    let mut gif = Gif::new();
    for _ in 0..65538 {
        let mut frame = Frame::new(0, 0);
        frame.delay = 65535;
        gif.add_frame(frame);
    }
    assert_eq!(gif.checked_total_duration(), None);
    gif.frames.pop();
    gif.frames.pop();
    assert_eq!(gif.checked_total_duration(), Some(65536 * 65535));
}

#[test]
fn clone_copies_every_field() {
    let mut frame = Frame::from_rgba(vec![1, 2, 3, 4], 1, 1);
    frame.delay = 7;
    frame.transparent = true;
    frame.disposal = DisposalMethod::RestorePrevious;
    let copy = frame.clone();
    assert_eq!(copy.data, vec![1, 2, 3, 4]);
    assert_eq!(copy.width, 1);
    assert_eq!(copy.height, 1);
    assert_eq!(copy.delay, 7);
    assert!(copy.transparent);
    assert_eq!(copy.disposal, DisposalMethod::RestorePrevious);
}

#[test]
fn checked_constructor_refuses_a_buffer_of_the_wrong_length() {
    let invalid_data = vec![0u8; 100];
    assert_eq!(Frame::checked_from_rgba(invalid_data, 10, 10).err(), Some(Error::DimensionMismatch));
    let frame = Frame::checked_from_rgba(vec![5u8; 400], 10, 10).unwrap();
    assert_eq!(frame.width, 10);
    assert_eq!(frame.height, 10);
    assert_eq!(frame.delay, 10);
    assert_eq!(frame.data.len(), 400);
    assert!(Frame::checked_from_rgba(Vec::new(), 0, 9).is_ok());
}

#[test]
fn first_frame_leaves_a_canvas_that_is_set_already() {
    let mut gif = Gif { frames: vec![], width: 100, height: 100, global_palette: None, loop_count: 0 };
    gif.add_frame(Frame::new(50, 50));
    assert_eq!(gif.width, 100);
    assert_eq!(gif.height, 100);
    assert_eq!(gif.frames.len(), 1);
    assert_eq!(gif.frames[0].width, 50);

    let mut gif = Gif { frames: vec![], width: 7, height: 0, global_palette: None, loop_count: 0 };
    gif.add_frame(Frame::new(3, 2));
    assert_eq!(gif.width, 7);
    assert_eq!(gif.height, 2);
}
