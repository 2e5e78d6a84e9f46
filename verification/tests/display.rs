use kitwin::config::Config;
use kitwin::display::{
    display_candidates, display_lock_path, display_name, display_socket_path, horizontal_scroll_button,
    screen_spec, scroll_button,
};

#[test]
fn display_names_and_paths() {
    assert_eq!(display_name(99), ":99");
    assert_eq!(screen_spec(1920, 1200), "1920x1200x24");
    assert_eq!(display_lock_path(7), "/tmp/.X7-lock");
    assert_eq!(display_socket_path(0), "/tmp/.X11-unix/X0");
    assert_eq!(scroll_button(1), "4");
    assert_eq!(scroll_button(-1), "5");
    assert_eq!(horizontal_scroll_button(1), "6");
    assert_eq!(horizontal_scroll_button(-1), "7");
    assert_eq!(display_candidates(197), vec![197, 198, 199]);
    assert!(display_candidates(200).is_empty());
}

#[test]
fn config_defaults_and_modes() {
    let mut c = Config::defaults();
    assert_eq!(c.fps, 30);
    assert_eq!(c.display, 99);
    assert!(c.audio_enabled());
    assert!(!c.session_mode());
    c.session = Some("work".to_string());
    assert!(c.session_mode());
    assert!(!c.audio_enabled());
}
