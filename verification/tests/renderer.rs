use kitwin::kitty::STREAM_IMAGE_ID_START;
use kitwin::renderer::{frame_interval_micros, next_stream_image_id, status_bar, RenderState};

#[test]
fn stream_ids_advance_and_wrap() {
    assert_eq!(next_stream_image_id(STREAM_IMAGE_ID_START), STREAM_IMAGE_ID_START + 1);
    assert_eq!(next_stream_image_id(u32::MAX), STREAM_IMAGE_ID_START);
    assert_eq!(next_stream_image_id(5), STREAM_IMAGE_ID_START);
    assert_eq!(next_stream_image_id(STREAM_IMAGE_ID_START - 1), STREAM_IMAGE_ID_START);
}

#[test]
fn frame_pacing() {
    assert_eq!(frame_interval_micros(30), 33333);
    assert_eq!(frame_interval_micros(0), 1_000_000);
    assert_eq!(frame_interval_micros(60), 16666);
}

#[test]
fn new_frame_replaces_the_previous_one() {
    let mut st = RenderState::new();
    let p1 = st.begin_frame(80, 24);
    assert!(p1.clear_screen);
    assert_eq!(p1.image_id, STREAM_IMAGE_ID_START);
    assert_eq!(p1.previous_image_id, None);
    assert_eq!(st.finish_frame(p1, true), None);
    let p2 = st.begin_frame(80, 24);
    assert!(!p2.clear_screen);
    assert_eq!(p2.image_id, STREAM_IMAGE_ID_START + 1);
    assert_eq!(p2.previous_image_id, Some(STREAM_IMAGE_ID_START));
    // A failed frame deletes nothing and keeps the old image current.
    assert_eq!(st.finish_frame(p2, false), None);
    assert_eq!(st.current_image_id, Some(STREAM_IMAGE_ID_START));
    let p3 = st.begin_frame(80, 24);
    assert_eq!(st.finish_frame(p3, true), Some(STREAM_IMAGE_ID_START));
    // A resize clears the screen and forgets the image on it.
    let p4 = st.begin_frame(100, 30);
    assert!(p4.clear_screen);
    assert_eq!(p4.previous_image_id, None);
}

#[test]
fn status_bar_pads_and_cuts() {
    assert_eq!(status_bar("hi", 6), "\u{1b}[7m hi   \u{1b}[0m");
    assert_eq!(status_bar("hello world", 6), "\u{1b}[7m hello\u{1b}[0m");
    assert_eq!(status_bar("x", 0), "\u{1b}[7m\u{1b}[0m");
    assert_eq!(status_bar("", 1), "\u{1b}[7m \u{1b}[0m");
}

fn byte_cut_bar(status: &str, cols: u16) -> String {
    let bar = format!(" {:<width$}", status, width = cols.saturating_sub(1) as usize);
    format!("\x1b[7m{}\x1b[0m", &bar[..bar.len().min(cols as usize)])
}

#[test]
fn status_bar_cuts_by_bytes_on_char_boundaries() {
    assert_eq!(status_bar("héllo", 4), "\u{1b}[7m hé\u{1b}[0m");
    assert_eq!(status_bar("héllo", 4), byte_cut_bar("héllo", 4));
    assert_eq!(status_bar("é", 6), "\u{1b}[7m é   \u{1b}[0m");
    assert_eq!(status_bar("é", 6), byte_cut_bar("é", 6));
    assert_eq!(status_bar("音量 50%", 20), byte_cut_bar("音量 50%", 20));
}
