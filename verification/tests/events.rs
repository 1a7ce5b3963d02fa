use scene_graph::events::WindowEvent;
use scene_graph::events::handle_event;
use scene_graph::geometry::Size;

#[test]
fn closed_exits() {
    let r = handle_event(&WindowEvent::Closed);
    assert!(r.exit);
    assert!(!r.end_batch);
    assert!(!r.layout);
    assert!(!r.render);
    assert!(r.resize.is_none());
    assert!(!r.wake);
}

#[test]
fn refresh_requests_render_only() {
    let r = handle_event(&WindowEvent::Refresh);
    assert!(!r.exit);
    assert!(!r.layout);
    assert!(r.render);
    assert!(r.resize.is_none());
    assert!(r.wake);
}

#[test]
fn resize_requests_layout_and_render() {
    let r = handle_event(&WindowEvent::Resized(800, 600));
    assert!(!r.exit);
    assert!(r.layout);
    assert!(r.render);
    assert_eq!(r.resize, Some(Size::new(800, 600)));
    assert!(r.wake);
}

#[test]
fn awakened_ends_the_batch() {
    let r = handle_event(&WindowEvent::Awakened);
    assert!(r.end_batch);
    assert!(!r.exit);
    assert!(!r.layout);
    assert!(!r.render);
}

#[test]
fn other_events_are_ignored() {
    let r = handle_event(&WindowEvent::Other);
    assert!(!r.end_batch);
    assert!(!r.exit);
    assert!(!r.layout);
    assert!(!r.render);
    assert!(r.resize.is_none());
    assert!(!r.wake);
}
