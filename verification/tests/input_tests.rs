use astroids::utils::{handle_key, is_key_pressed, key_down, key_up, KeyManager};

#[test]
fn unseen_key_is_not_pressed() {
    let km = KeyManager::new();
    assert!(!is_key_pressed(&km, "W"));
    assert!(!is_key_pressed(&km, "Space"));
}

#[test]
fn key_down_marks_held() {
    let mut km = KeyManager::new();
    key_down(&mut km, String::from("W"));
    assert!(is_key_pressed(&km, "W"));
    assert!(!is_key_pressed(&km, "A"));
}

#[test]
fn key_up_marks_released() {
    let mut km = KeyManager::new();
    key_down(&mut km, String::from("W"));
    key_up(&mut km, String::from("W"));
    assert!(!is_key_pressed(&km, "W"));
}

#[test]
fn key_up_on_unseen_key_records_released() {
    let mut km = KeyManager::new();
    key_up(&mut km, String::from("Space"));
    assert!(!is_key_pressed(&km, "Space"));
    key_down(&mut km, String::from("Space"));
    assert!(is_key_pressed(&km, "Space"));
}

#[test]
fn handle_key_overwrites_state() {
    let mut km = KeyManager::new();
    handle_key(&mut km, String::from("C"), true);
    assert!(is_key_pressed(&km, "C"));
    handle_key(&mut km, String::from("C"), false);
    assert!(!is_key_pressed(&km, "C"));
    handle_key(&mut km, String::from("C"), true);
    assert!(is_key_pressed(&km, "C"));
}

#[test]
fn keys_are_independent() {
    let mut km = KeyManager::new();
    key_down(&mut km, String::from("W"));
    key_down(&mut km, String::from("S"));
    key_up(&mut km, String::from("W"));
    assert!(!is_key_pressed(&km, "W"));
    assert!(is_key_pressed(&km, "S"));
}
