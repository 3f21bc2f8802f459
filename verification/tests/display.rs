use wire_thermometer::display::{draw_num, draw_rust, draw_temp, draw_text, Font, Ink};
use wire_thermometer::temperature::decode;

#[test]
fn number_is_written_in_decimal() {
    assert_eq!(draw_num(0, false).text, "0");
    assert_eq!(draw_num(7, false).text, "7");
    assert_eq!(draw_num(42, false).text, "42");
    assert_eq!(draw_num(1000, false).text, "1000");
    assert_eq!(draw_num(4294967295, false).text, "4294967295");
}

#[test]
fn number_goes_below_the_first_line_in_red() {
    let order = draw_num(12, false);
    assert_eq!(order.font, Font::Large);
    assert_eq!(order.ink, Ink::Red);
    assert_eq!((order.x, order.y), (0, 25));
    assert!(!order.clear);
    assert!(draw_num(12, true).clear);
}

#[test]
fn temperature_text_has_one_decimal_and_the_unit() {
    assert_eq!(draw_temp(25, 0, true).text, "25.0 \u{b0}C");
    assert_eq!(draw_temp(0, 5, true).text, "0.5 \u{b0}C");
    assert_eq!(draw_temp(125, 9, true).text, "125.9 \u{b0}C");
    assert_eq!(draw_temp(4095, 5, true).text, "4095.5 \u{b0}C");
}

#[test]
fn temperature_text_keeps_only_the_first_digit() {
    assert_eq!(draw_temp(25, 37, true).text, "25.3 \u{b0}C");
    assert_eq!(draw_temp(65535, 65535, true).text, "65535.6 \u{b0}C");
}

#[test]
fn temperature_goes_on_the_first_line_in_white() {
    let order = draw_temp(25, 0, true);
    assert_eq!(order.font, Font::Large);
    assert_eq!(order.ink, Ink::White);
    assert_eq!((order.x, order.y), (0, 0));
    assert!(order.clear);
}

#[test]
fn decoded_reading_is_drawn() {
    let (whole, tenth) = decode(401);
    assert_eq!(draw_temp(whole, tenth, true).text, "25.0 \u{b0}C");
    let (whole, tenth) = decode(0x00A2);
    assert_eq!(draw_temp(whole, tenth, true).text, "10.1 \u{b0}C");
}

#[test]
fn free_text_is_small_and_white() {
    let order = draw_text("NF", true);
    assert_eq!(order.text, "NF");
    assert_eq!(order.font, Font::Small);
    assert_eq!(order.ink, Ink::White);
    assert_eq!((order.x, order.y), (0, 0));
    assert!(order.clear);
}

#[test]
fn idle_picture_is_centred() {
    let order = draw_rust(true);
    assert_eq!((order.x, order.y), (5, 0));
    assert_eq!((order.width, order.height), (86, 64));
    assert!(order.clear);
    assert!(!draw_rust(false).clear);
}
