use wtf_cli::keys::{handle_list_navigation, Key};

#[test]
fn test_navigation_up() {
    let mut index = 5;
    assert!(handle_list_navigation(Key::Up, &mut index, 10));
    assert_eq!(index, 4);
}

#[test]
fn test_navigation_down() {
    let mut index = 5;
    assert!(handle_list_navigation(Key::Down, &mut index, 10));
    assert_eq!(index, 6);
}

#[test]
fn test_navigation_home() {
    let mut index = 5;
    assert!(handle_list_navigation(Key::Home, &mut index, 10));
    assert_eq!(index, 0);
}

#[test]
fn test_navigation_end() {
    let mut index = 5;
    assert!(handle_list_navigation(Key::End, &mut index, 10));
    assert_eq!(index, 10);
}

#[test]
fn test_navigation_bounds_up() {
    let mut index = 0;
    assert!(handle_list_navigation(Key::Up, &mut index, 10));
    assert_eq!(index, 0);
}

#[test]
fn test_navigation_bounds_down() {
    let mut index = 10;
    assert!(handle_list_navigation(Key::Down, &mut index, 10));
    assert_eq!(index, 10);
}

#[test]
fn test_unhandled_key() {
    let mut index = 5;
    assert!(!handle_list_navigation(Key::Char('a'), &mut index, 10));
    assert_eq!(index, 5);
}

#[test]
fn vi_keys_navigate_like_arrows() {
    let mut index = 5;
    assert!(handle_list_navigation(Key::Char('k'), &mut index, 10));
    assert_eq!(index, 4);
    assert!(handle_list_navigation(Key::Char('j'), &mut index, 10));
    assert_eq!(index, 5);
}
