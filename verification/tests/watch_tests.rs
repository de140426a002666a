use segclock::watch::Mode;
use segclock::watch::Watch;

#[test]
fn new_watch_has_boot_state() {
    let w = Watch::new();
    assert_eq!(w.mode, Mode::UnixClock);
    assert_eq!(w.brightness, 4);
    assert_eq!(w.ts, 0);
}

#[test]
fn default_matches_new() {
    assert_eq!(Watch::default(), Watch::new());
}

#[test]
fn tick_advances_by_one_unit_each_call() {
    let mut w = Watch::new();
    for _ in 0..1000 {
        w.tick();
    }
    assert_eq!(w.ts, 1000);
    assert_eq!(w.mode, Mode::UnixClock);
    assert_eq!(w.brightness, 4);
}

#[test]
fn set_utc_time_overwrites_timestamp() {
    let mut w = Watch::new();
    w.tick();
    w.set_utc_time(2023, 8, 8, 0, 41, 1);
    assert_eq!(w.ts, 1691455261);
    assert_eq!(w.mode, Mode::UnixClock);
    assert_eq!(w.brightness, 4);
}

#[test]
fn mode_switch_codes() {
    let mut w = Watch::new();
    w.ir_command(0x07);
    assert_eq!(w.mode, Mode::DoomsdayClock);
    w.ir_command(0x47);
    assert_eq!(w.mode, Mode::UnixClock);
    w.ir_command(0x46);
    assert_eq!(w.mode, Mode::DoomsdayClock);
    w.ir_command(0x45);
    assert_eq!(w.mode, Mode::UnixClock);
}

#[test]
fn brightness_reset_codes() {
    let mut w = Watch::new();
    w.ir_command(0x44);
    assert_eq!(w.brightness, 16);
    w.ir_command(0x43);
    assert_eq!(w.brightness, 24);
    w.ir_command(0x15);
    assert_eq!(w.brightness, 16);
}

#[test]
fn dim_stops_at_floor() {
    let mut w = Watch::new();
    w.ir_command(0x44);
    assert_eq!(w.brightness, 16);
    w.ir_command(0x40);
    assert_eq!(w.brightness, 8);
    w.ir_command(0x40);
    assert_eq!(w.brightness, 8);
    w.ir_command(0x0d);
    assert_eq!(w.brightness, 8);
}

#[test]
fn dim_from_boot_brightness_raises_to_floor() {
    let mut w = Watch::new();
    assert_eq!(w.brightness, 4);
    w.ir_command(0x40);
    assert_eq!(w.brightness, 8);
}

#[test]
fn brighten_saturates_at_ceiling() {
    let mut w = Watch::new();
    for _ in 0..100 {
        w.ir_command(0x43);
    }
    assert_eq!(w.brightness, 255);
    w.ir_command(0x43);
    assert_eq!(w.brightness, 255);
}

#[test]
fn brightness_stays_in_bounds_under_any_command_mix() {
    let mut w = Watch::new();
    let codes = [0x43u8, 0x40, 0x0d, 0x44, 0x43, 0x43, 0x40, 0x15, 0x0d, 0x0d, 0x0d, 0x43];
    for _ in 0..30 {
        for &c in codes.iter() {
            w.ir_command(c);
            assert!(w.brightness >= 4);
        }
    }
}

#[test]
fn unknown_codes_leave_state_unchanged() {
    let mut w = Watch::new();
    w.ir_command(0x44);
    w.ir_command(0x07);
    let before = w;
    for code in 0..=255u8 {
        let recognized = matches!(code, 0x07 | 0x46 | 0x47 | 0x45 | 0x44 | 0x15 | 0x40 | 0x0d | 0x43);
        if !recognized {
            w.ir_command(code);
            assert_eq!(w, before);
        }
    }
}

#[test]
fn animate_writes_decimal_digits_onto_canvas() {
    let digits: [u8; 10] = [
        0b0111111, 0b0000110, 0b1011011, 0b1001111, 0b1100110, 0b1101101, 0b1111101, 0b0000111,
        0b1111111, 0b1101111,
    ];
    let mut w = Watch::new();
    w.set_utc_time(2023, 8, 8, 0, 41, 1);
    let mut d = segclock::display::DisplayController::new();
    w.animate(&mut d);
    // 1691455261 shown most significant digit first
    let shown = [1u64, 6, 9, 1, 4, 5, 5, 2, 6, 1];
    for (pos, &digit) in shown.iter().enumerate() {
        let sym = digits[digit as usize];
        for off in 0..8 {
            let expected = if (sym >> off) & 1 == 1 { w.brightness } else { 0 };
            assert_eq!(d.canvas[pos * 8 + 7 - off], expected);
        }
    }
}

#[test]
fn animate_countdown_shows_distance_to_base() {
    let digits: [u8; 10] = [
        0b0111111, 0b0000110, 0b1011011, 0b1001111, 0b1100110, 0b1101101, 0b1111101, 0b0000111,
        0b1111111, 0b1101111,
    ];
    let mut w = Watch::new();
    w.ir_command(0x07);
    assert_eq!(w.mode, Mode::DoomsdayClock);
    let mut d = segclock::display::DisplayController::new();
    w.animate(&mut d);
    // 0x7fffffff - 0 = 2147483647
    let shown = [2u64, 1, 4, 7, 4, 8, 3, 6, 4, 7];
    for (pos, &digit) in shown.iter().enumerate() {
        let sym = digits[digit as usize];
        for off in 0..8 {
            let expected = if (sym >> off) & 1 == 1 { w.brightness } else { 0 };
            assert_eq!(d.canvas[pos * 8 + 7 - off], expected);
        }
    }
}
