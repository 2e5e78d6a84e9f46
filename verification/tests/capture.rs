use kitwin::capture::{CaptureMsg, FramePool, SendOutcome, MAX_POOL};

#[test]
fn repeated_frames_are_detected_only_after_sending() {
    let mut p = FramePool::new();
    let f = vec![1u8, 2, 3, 4];
    assert!(!p.is_repeat(&f));
    let out = p.outgoing(&f);
    assert_eq!(out, f);
    assert!(!p.is_repeat(&f));
    p.mark_sent(&f);
    assert!(p.is_repeat(&f));
    assert!(!p.is_repeat(&[1, 2, 3, 5]));
}

#[test]
fn pool_is_bounded_and_reused() {
    let mut p = FramePool::new();
    for _ in 0..10 {
        p.reclaim(vec![0u8; 3]);
    }
    assert_eq!(p.pool.len(), MAX_POOL);
    let out = p.outgoing(&[7, 7]);
    assert_eq!(out, vec![7, 7]);
    assert_eq!(p.pool.len(), MAX_POOL - 1);
    let msg = CaptureMsg::Frame { rgba: out, width: 1, height: 1 };
    match msg {
        CaptureMsg::Frame { rgba, width, height } => {
            assert_eq!(rgba.len(), 2);
            assert_eq!((width, height), (1, 1));
        }
    }
}

#[test]
fn dropped_frame_is_not_counted_as_sent() {
    let mut p = FramePool::new();
    let frame = vec![1u8, 2, 3, 4];
    let out = p.outgoing(&frame);
    assert!(p.after_send(&frame, SendOutcome::Full(out)));
    assert!(!p.is_repeat(&frame));
    assert_eq!(p.pool.len(), 1);
    let out = p.outgoing(&frame);
    assert_eq!(p.pool.len(), 0);
    drop(out);
    assert!(p.after_send(&frame, SendOutcome::Sent));
    assert!(p.is_repeat(&frame));
    assert!(!p.after_send(&[9u8], SendOutcome::Disconnected));
    assert!(p.is_repeat(&frame));
    for _ in 0..MAX_POOL + 2 {
        assert!(p.after_send(&frame, SendOutcome::Full(Vec::new())));
    }
    assert_eq!(p.pool.len(), MAX_POOL);
}
