use testocr::device::{devices_listed, parse_screen_size, screen_size_fits_check};

#[test]
fn screen_size_of_wm_output() {
    let out = "Physical size: 1080x2400\n";
    assert!(screen_size_fits_check(out));
    assert_eq!(parse_screen_size(out), Some((1080, 2400)));
}

#[test]
fn first_size_is_taken() {
    let out = "Physical size: 1080x2400\nOverride size: 720x1600\n";
    assert_eq!(parse_screen_size(out), Some((1080, 2400)));
    assert_eq!(parse_screen_size("x 12x x3 4x5"), Some((4, 5)));
}

#[test]
fn no_size_in_text() {
    assert_eq!(parse_screen_size("error: no devices"), None);
    assert_eq!(parse_screen_size("1080 x 2400"), None);
}

#[test]
fn oversized_screen_is_detected() {
    assert!(!screen_size_fits_check("99999999999x1"));
    assert!(!screen_size_fits_check("1x2147483648"));
    assert!(screen_size_fits_check("2147483647x1"));
}

#[test]
fn device_listing() {
    assert!(!devices_listed("List of devices attached\n\n"));
    assert!(devices_listed("List of devices attached\nemulator-5554\tdevice\n"));
}
