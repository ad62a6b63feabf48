use a3conv::params::LzssParams;
use a3conv::window::{lzss_set_window, new_window};

#[test]
fn default_parameters_are_those_of_the_archive() {
    let p = LzssParams::default();
    assert_eq!(p.window_index_bits(), 12);
    assert_eq!(p.length_bits(), 4);
    assert_eq!(p.match_threshold(), 2);
    assert_eq!(p.window_init_value(), 0x20);
    assert_eq!(p.window_len(), 4096);
    assert_eq!(p.run_len_span(), 16);
}

#[test]
fn new_keeps_what_it_is_given() {
    let p = LzssParams::new(10, 5, 3, -1).unwrap();
    assert_eq!(p.window_index_bits(), 10);
    assert_eq!(p.length_bits(), 5);
    assert_eq!(p.match_threshold(), 3);
    assert_eq!(p.window_init_value(), -1);
    assert_eq!(p.window_len(), 1024);
    assert_eq!(p.run_len_span(), 32);
}

#[test]
fn new_rejects_a_window_that_is_too_large() {
    assert!(LzssParams::new(31, 4, 2, 0).is_none());
    assert!(LzssParams::new(32, 4, 2, 0).is_none());
    assert!(LzssParams::new(30, 4, 2, 0).is_some());
}

#[test]
fn new_rejects_a_window_that_cannot_hold_the_start_cursor() {
    // F + P must not exceed N
    assert!(LzssParams::new(4, 4, 0, 0).is_some());
    assert!(LzssParams::new(4, 4, 1, 0).is_none());
    assert!(LzssParams::new(4, 5, 0, 0).is_none());
    assert!(LzssParams::new(4, 40, 0, 0).is_none());
    assert!(LzssParams::new(4, 3, 8, 0).is_some());
    assert!(LzssParams::new(4, 3, 9, 0).is_none());
    assert!(LzssParams::new(0, 0, 0, 0).is_some());
    assert!(LzssParams::new(12, 4, u32::MAX, 0).is_none());
}

#[test]
fn constant_fill() {
    assert_eq!(new_window(5, 0x20), vec![0x20; 5]);
    assert_eq!(new_window(3, 0), vec![0; 3]);
    assert_eq!(new_window(0, 7), Vec::<u8>::new());
}

#[test]
fn constant_fill_takes_the_low_byte_of_the_code() {
    assert_eq!(new_window(2, 0x141), vec![0x41; 2]);
    assert_eq!(new_window(2, -4), vec![252; 2]);
    assert_eq!(new_window(2, -256), vec![0; 2]);
    assert_eq!(new_window(1, i32::MIN), vec![0]);
    assert_eq!(new_window(1, i32::MAX), vec![255]);
}

#[test]
fn counter_fill() {
    let w = new_window(32, -1);
    let mut expected = vec![0u8; 32];
    expected[6] = 0;
    expected[14] = 1;
    expected[22] = 2;
    expected[30] = 3;
    assert_eq!(w, expected);
}

#[test]
fn counter_fill_wraps_at_256() {
    let w = new_window(4096, -1);
    assert_eq!(w[6], 0);
    assert_eq!(w[255 * 8 + 6], 255);
    assert_eq!(w[256 * 8 + 6], 0);
    assert_eq!(w[257 * 8 + 6], 1);
    assert_eq!(w[257 * 8 + 5], 0);
}

#[test]
fn ascending_fill() {
    assert_eq!(new_window(4, -2), vec![0, 1, 2, 3]);
    let w = new_window(600, -2);
    assert_eq!(w[255], 255);
    assert_eq!(w[256], 0);
    assert_eq!(w[599], 87);
}

#[test]
fn descending_fill_gives_each_position_its_own_value() {
    assert_eq!(new_window(4, -3), vec![0, 1, 2, 3]);
    assert_eq!(new_window(600, -3), new_window(600, -2));
}

#[test]
fn set_window_positional_patterns_leave_the_tail() {
    let mut buf = vec![9u8; 6];
    lzss_set_window(&mut buf, 4, -2);
    assert_eq!(buf, vec![0, 1, 2, 3, 9, 9]);
    let mut buf = vec![9u8; 6];
    lzss_set_window(&mut buf, 4, -3);
    assert_eq!(buf, vec![0, 1, 2, 3, 9, 9]);
}

#[test]
fn set_window_fills_cover_the_tail() {
    let mut buf = vec![9u8; 6];
    lzss_set_window(&mut buf, 4, 0x20);
    assert_eq!(buf, vec![0x20; 6]);
    let mut buf = vec![9u8; 16];
    lzss_set_window(&mut buf, 8, -1);
    // position 14 lies behind the window and stays zero
    assert_eq!(buf, vec![0u8; 16]);
    let mut buf = vec![9u8; 16];
    lzss_set_window(&mut buf, 15, -1);
    let mut expected = vec![0u8; 16];
    expected[14] = 1;
    assert_eq!(buf, expected);
}

#[test]
fn set_window_constant_fill_takes_any_window_size() {
    let mut buf = vec![9u8; 3];
    lzss_set_window(&mut buf, 100, 0x41);
    assert_eq!(buf, vec![0x41; 3]);
    let mut buf: Vec<u8> = Vec::new();
    lzss_set_window(&mut buf, 4096, 0x20);
    assert_eq!(buf, Vec::<u8>::new());
}

#[test]
fn set_window_counter_needs_its_cells_only() {
    // a window of 14 bytes has one counter cell, at 6
    let mut buf = vec![9u8; 7];
    lzss_set_window(&mut buf, 14, -1);
    assert_eq!(buf, vec![0u8; 7]);
    let mut buf = vec![9u8; 15];
    lzss_set_window(&mut buf, 22, -1);
    let mut expected = vec![0u8; 15];
    expected[14] = 1;
    assert_eq!(buf, expected);
    let mut buf = vec![9u8; 2];
    lzss_set_window(&mut buf, 6, -1);
    assert_eq!(buf, vec![0u8; 2]);
}
