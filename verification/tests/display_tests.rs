use segclock::display::DisplayController;

#[test]
fn new_display_is_blank() {
    let d = DisplayController::new();
    assert_eq!(d.luma, 0);
    assert_eq!(d.canvas.len(), 80);
    assert!(d.canvas.iter().all(|&b| b == 0));
}

#[test]
fn blank_canvas_renders_dark_frame() {
    let mut d = DisplayController::new();
    let frame = d.render();
    assert_eq!(frame, vec![0u8; 10]);
}

#[test]
fn lit_segments_set_their_frame_bits() {
    let mut d = DisplayController::new();
    // segment 0: group 0, most significant bit
    d.update_segment(0, 200);
    // segment 9: group 1, second most significant bit
    d.update_segment(9, 100);
    // segment 79: group 9, least significant bit
    d.update_segment(79, 1);
    let frame = d.render();
    assert_eq!(frame[0], 0b1000_0000);
    assert_eq!(frame[1], 0b0100_0000);
    assert_eq!(frame[9], 0b0000_0001);
    for g in 2..9 {
        assert_eq!(frame[g], 0);
    }
}

#[test]
fn segment_at_threshold_is_dark() {
    let mut d = DisplayController::new();
    d.update_segment(3, 4);
    let first = d.render();
    // brightness 4 beats threshold 0
    assert_eq!(first[0], 0b0001_0000);
    let second = d.render();
    // threshold is now 4; 4 > 4 is false
    assert_eq!(second[0], 0);
}

#[test]
fn threshold_advances_by_step_and_wraps() {
    let mut d = DisplayController::new();
    assert_eq!(d.luma, 0);
    d.render();
    assert_eq!(d.luma, 4);
    d.render();
    assert_eq!(d.luma, 8);
    for _ in 0..62 {
        d.render();
    }
    // 64 renders of step 4 wrap the 8-bit threshold back to its start
    assert_eq!(d.luma, 0);
}

#[test]
fn print_writes_bitmask_msb_to_low_cell() {
    let mut d = DisplayController::new();
    d.print(2, 0b0111111, 10);
    // bit `off` of the symbol lands in cell pos*8 + 7 - off
    for off in 0..8 {
        let expected = if (0b0111111u8 >> off) & 1 == 1 { 10 } else { 0 };
        assert_eq!(d.canvas[2 * 8 + 7 - off], expected);
    }
    // other groups untouched
    for i in 0..80 {
        if !(16..24).contains(&i) {
            assert_eq!(d.canvas[i], 0);
        }
    }
    // at threshold 0 the rendered byte reproduces the printed symbol
    let frame = d.render();
    assert_eq!(frame[2], 0b0111111);
}

#[test]
fn print_overwrites_previous_symbol() {
    let mut d = DisplayController::new();
    d.print(5, 0b1111111, 20);
    d.print(5, 0b0000110, 20);
    let frame = d.render();
    assert_eq!(frame[5], 0b0000110);
}
