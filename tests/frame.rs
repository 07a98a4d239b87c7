use arcade_desktop::frame::{encode_frame, perimeter_frame, FRAME_MARKER};
use arcade_desktop::grid::{LEDCalculator, RGB};

#[test]
fn three_leds_encode_behind_the_marker() {
    let colors = vec![
        RGB { r: 1, g: 2, b: 3 },
        RGB { r: 4, g: 5, b: 6 },
        RGB { r: 7, g: 8, b: 9 },
    ];
    assert_eq!(encode_frame(&colors), vec![0x77, 1, 2, 3, 4, 5, 6, 7, 8, 9]);
}

#[test]
fn empty_color_list_is_just_the_marker() {
    assert_eq!(encode_frame(&Vec::new()), vec![FRAME_MARKER]);
}

#[test]
fn perimeter_frame_is_marker_then_walk() {
    let mut calc = LEDCalculator::new(2, 2, 1).unwrap();
    calc.saturate(0, 0, 1, 2, 3);
    calc.saturate(1, 0, 4, 5, 6);
    calc.saturate(1, 1, 7, 8, 9);
    calc.saturate(0, 1, 10, 11, 12);
    let frame = perimeter_frame(&calc, 4);
    assert_eq!(frame, vec![0x77, 1, 2, 3, 4, 5, 6, 7, 8, 9, 10, 11, 12]);
    assert_eq!(frame.len(), 1 + 3 * 4);
}
