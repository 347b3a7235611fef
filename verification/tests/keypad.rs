use chip8::Keypad;

#[test]
fn new_keypad_has_no_key_pressed() {
    let pad = Keypad::new();
    for k in 0..=255u8 {
        assert_eq!(pad.key_state(k), 0);
    }
    assert_eq!(pad.first_key_pressed(), None);
}

#[test]
fn press_and_release() {
    let mut pad = Keypad::new();
    pad.key_pressed(3);
    assert_eq!(pad.key_state(3), 1);
    assert_eq!(pad.key_state(2), 0);
    assert_eq!(pad.key_state(4), 0);
    pad.key_pressed(3);
    assert_eq!(pad.key_state(3), 1);
    pad.key_released(3);
    assert_eq!(pad.key_state(3), 0);
    pad.key_released(3);
    assert_eq!(pad.key_state(3), 0);
    assert_eq!(pad.first_key_pressed(), None);
}

#[test]
fn lowest_key_wins() {
    let mut pad = Keypad::new();
    pad.key_pressed(0xF);
    assert_eq!(pad.first_key_pressed(), Some(0xF));
    pad.key_pressed(7);
    assert_eq!(pad.first_key_pressed(), Some(7));
    pad.key_pressed(9);
    assert_eq!(pad.first_key_pressed(), Some(7));
    pad.key_pressed(0);
    assert_eq!(pad.first_key_pressed(), Some(0));
    pad.key_released(0);
    pad.key_released(7);
    assert_eq!(pad.first_key_pressed(), Some(9));
}

#[test]
fn every_key_has_its_own_bit() {
    for k in 0..16u8 {
        let mut pad = Keypad::new();
        pad.key_pressed(k);
        for j in 0..16u8 {
            assert_eq!(pad.key_state(j), if j == k { 1 } else { 0 });
        }
        assert_eq!(pad.first_key_pressed(), Some(k));
    }
}

#[test]
fn clear_releases_every_key() {
    let mut pad = Keypad::new();
    for k in 0..16u8 {
        pad.key_pressed(k);
    }
    pad.clear();
    for k in 0..16u8 {
        assert_eq!(pad.key_state(k), 0);
    }
    assert_eq!(pad.first_key_pressed(), None);
}

#[test]
fn codes_that_name_no_key_are_never_held() {
    let mut pad = Keypad::new();
    for k in 0..16u8 {
        pad.key_pressed(k);
    }
    for k in 16..=255u8 {
        assert_eq!(pad.key_state(k), 0);
    }
}

#[test]
fn first_key_is_one_of_the_sixteen() {
    let mut pad = Keypad::new();
    for k in (0..16u8).rev() {
        pad.key_pressed(k);
        let first = pad.first_key_pressed().unwrap();
        assert!(first < 16);
        assert_eq!(first, k);
        assert_eq!(pad.key_state(first), 1);
    }
}
