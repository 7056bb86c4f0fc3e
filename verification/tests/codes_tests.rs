use elgato_keylight::codes::{
    clamp_brightness, relative_brightness, temperature_code, MAX_TEMPERATURE_CODE,
    MIN_TEMPERATURE_CODE,
};

#[test]
fn temperature_code_endpoints() {
    assert_eq!(temperature_code(2900), 143);
    assert_eq!(temperature_code(7000), 344);
}

#[test]
fn temperature_code_midpoint() {
    assert_eq!(temperature_code(4950), 244);
}

#[test]
fn temperature_code_clamps_outside_range() {
    assert_eq!(temperature_code(0), 143);
    assert_eq!(temperature_code(2000), 143);
    assert_eq!(temperature_code(9000), 344);
    assert_eq!(temperature_code(u32::MAX), 344);
}

#[test]
fn temperature_code_monotonic_and_in_range() {
    let mut prev = temperature_code(2800);
    let mut k: u32 = 2800;
    while k <= 7100 {
        let code = temperature_code(k);
        assert!(code >= prev);
        assert!(code >= MIN_TEMPERATURE_CODE);
        assert!(code <= MAX_TEMPERATURE_CODE);
        prev = code;
        k += 25;
    }
}

#[test]
fn brightness_clamps_to_percent_range() {
    assert_eq!(clamp_brightness(0), 0);
    assert_eq!(clamp_brightness(50), 50);
    assert_eq!(clamp_brightness(100), 100);
    assert_eq!(clamp_brightness(101), 100);
    assert_eq!(clamp_brightness(255), 100);
}

#[test]
fn relative_brightness_shifts_and_clamps() {
    assert_eq!(relative_brightness(50, 30), 80);
    assert_eq!(relative_brightness(50, -30), 20);
    assert_eq!(relative_brightness(50, -60), 0);
    assert_eq!(relative_brightness(90, 20), 100);
    assert_eq!(relative_brightness(100, 0), 100);
}

#[test]
fn relative_brightness_clamps_delta_symmetrically() {
    // deltas beyond one whole range are treated as the whole range
    assert_eq!(relative_brightness(0, 250), 100);
    assert_eq!(relative_brightness(50, i32::MAX), 100);
    assert_eq!(relative_brightness(50, -250), 0);
    assert_eq!(relative_brightness(50, i32::MIN), 0);
}
