use lumen::desktop::{
    check_dimensions, elapsed_millis, encode_jpeg, encode_png, encode_rgb, frame_outputs,
    pointer_button, sway_config, BufferDescription, CaptureState, DimensionError, PixelFormat,
    UnsupportedFormat,
};

#[test]
fn pointer_buttons_use_linux_input_codes() {
    assert_eq!(pointer_button("right"), 0x111);
    assert_eq!(pointer_button("middle"), 0x112);
    assert_eq!(pointer_button("left"), 0x110);
    assert_eq!(pointer_button("anything"), 0x110);
}

#[test]
fn desktop_sizes_must_fit_the_viewer() {
    assert_eq!(check_dimensions(0, 10), Err(DimensionError::Empty));
    assert_eq!(check_dimensions(70000, 10), Err(DimensionError::TooLarge));
    assert_eq!(check_dimensions(1440, 900), Ok(()));
    assert_eq!(DimensionError::Empty.message(), "desktop dimensions must be positive");
}

#[test]
fn the_compositor_gets_one_output_of_the_session_size() {
    assert_eq!(
        sway_config(1440, 900),
        "output * mode 1440x900\ndefault_border none\nfocus_follows_mouse no\n"
    );
}

#[test]
fn pointer_time_saturates_at_the_protocol_limit() {
    assert_eq!(elapsed_millis(1234), 1234);
    assert_eq!(elapsed_millis(u32::MAX as u128 + 5), u32::MAX);
}

#[test]
fn xrgb_pixels_become_rgb_rows() {
    // Two pixels per row, stride of 12 bytes (4 bytes of padding), two rows.
    let source = [
        3, 2, 1, 0, 6, 5, 4, 0, 9, 9, 9, 9, //
        13, 12, 11, 0, 16, 15, 14, 0, 9, 9, 9, 9,
    ];
    let rgb = encode_rgb(&source, PixelFormat::Xrgb8888, 2, 2, 12, false).unwrap();
    assert_eq!(rgb, vec![1, 2, 3, 4, 5, 6, 11, 12, 13, 14, 15, 16]);
    let flipped = encode_rgb(&source, PixelFormat::Argb8888, 2, 2, 12, true).unwrap();
    assert_eq!(flipped, vec![11, 12, 13, 14, 15, 16, 1, 2, 3, 4, 5, 6]);
    assert_eq!(
        encode_rgb(&source, PixelFormat::Other, 2, 2, 12, false),
        Err(UnsupportedFormat)
    );
    assert_eq!(encode_rgb(&[], PixelFormat::Other, 0, 0, 0, false), Ok(Vec::new()));
}

#[test]
fn frames_encode_to_jpeg_and_png() {
    let rgb = vec![200u8; 4 * 4 * 3];
    let jpeg = encode_jpeg(&rgb, 4, 4).unwrap();
    assert_eq!(&jpeg[..2], &[0xff, 0xd8]);
    let png = encode_png(&rgb, 4, 4).unwrap();
    assert_eq!(&png[..8], b"\x89PNG\r\n\x1a\n");
    assert_eq!(encode_jpeg(&rgb, 0, 4).unwrap_err(), "JPEG encoding");
    assert!(encode_png(&rgb, 0, 4).is_err());
}

fn description(format: PixelFormat) -> BufferDescription {
    BufferDescription { format, width: 2, height: 1, stride: 8 }
}

#[test]
fn capture_runs_one_frame_at_a_time_for_whoever_wants_it() {
    let mut state = CaptureState::new(2, 1);
    assert!(!state.request_capture(), "nobody wants a frame yet");
    assert!(state.screenshot());
    assert!(!state.start(), "a frame is already in flight");
    state.offer(description(PixelFormat::Argb8888));
    state.offer(description(PixelFormat::Other));
    assert_eq!(state.pending.unwrap().format, PixelFormat::Argb8888);
    state.offer(description(PixelFormat::Xrgb8888));
    state.offer(description(PixelFormat::Argb8888));
    assert_eq!(state.pending.unwrap().format, PixelFormat::Xrgb8888, "XRGB is kept");
    state.set_invert_y(true);
    let chosen = state.buffer_done().unwrap();
    state.buffer_created(chosen);
    let plan = state.ready();
    assert!(plan.stream && plan.answer_screenshot && plan.has_buffer);
    assert!(!plan.request_next, "the buffer is still held by the compositor");
    assert!(!state.screenshot_waiting);
    assert!(state.buffer_released(), "released after its frame: capture the next one");
    assert!(state.frame_active);
}

#[test]
fn a_failed_frame_answers_the_screenshot_and_stop_drops_everything() {
    let mut state = CaptureState::new(2, 1);
    assert!(state.screenshot());
    assert_eq!(state.buffer_done(), None);
    assert!(state.fail());
    assert!(!state.screenshot_waiting && !state.frame_active);
    assert!(state.start());
    assert!(state.stop());
    assert!(!state.streaming && !state.frame_active && !state.screenshot_waiting);
}

#[test]
fn ready_frames_produce_stream_and_screenshot_outputs() {
    let mut state = CaptureState::new(2, 1);
    state.screenshot();
    let plan = state.ready();
    let outputs = frame_outputs(&plan, None);
    assert!(outputs.stream_frame.is_none());
    assert_eq!(
        outputs.screenshot.unwrap().unwrap_err(),
        "Wayland frame was ready without a buffer"
    );
    let mut state = CaptureState::new(2, 1);
    state.start();
    state.screenshot();
    state.buffer_created(description(PixelFormat::Xrgb8888));
    let plan = state.ready();
    let outputs = frame_outputs(&plan, Some(Ok(vec![1, 2, 3, 4, 5, 6])));
    assert!(outputs.stream_frame.unwrap().is_ok());
    assert!(outputs.screenshot.unwrap().is_ok());
    let outputs = frame_outputs(&plan, Some(Err(UnsupportedFormat)));
    assert_eq!(outputs.screenshot.unwrap().unwrap_err(), "unsupported Wayland shm format");
}
