use nethawk::capture::{frame_after_link_header, CaptureAction, CaptureCount, CaptureEvent};

#[test]
fn capture_count_without_limit_never_stops_on_packets() {
    let mut c = CaptureCount::new(None);
    assert_eq!(c.limit, u64::MAX);
    assert!(c.step(CaptureEvent::Packet(60)) == CaptureAction::Next);
    assert!(c.step(CaptureEvent::Packet(40)) == CaptureAction::Next);
    assert_eq!(c.captured, 2);
    assert_eq!(c.bytes, 100);
}

#[test]
fn capture_count_stops_at_limit() {
    let mut c = CaptureCount::new(Some(2));
    assert_eq!(c.limit, 2);
    assert!(c.step(CaptureEvent::Packet(10)) == CaptureAction::Next);
    assert!(c.step(CaptureEvent::Packet(20)) == CaptureAction::Stop);
    assert_eq!(c.captured, 2);
    assert_eq!(c.bytes, 30);
}

#[test]
fn capture_count_limit_zero_stops_after_first_packet() {
    let mut c = CaptureCount::new(Some(0));
    assert!(c.step(CaptureEvent::Packet(5)) == CaptureAction::Stop);
    assert_eq!(c.captured, 1);
}

#[test]
fn capture_idle_waits_and_failure_stops() {
    let mut c = CaptureCount::new(Some(3));
    assert!(c.step(CaptureEvent::Idle) == CaptureAction::Wait);
    assert_eq!(c.captured, 0);
    assert_eq!(c.bytes, 0);
    assert!(c.step(CaptureEvent::Failed) == CaptureAction::Stop);
    assert_eq!(c.captured, 0);
}

#[test]
fn frame_after_cooked_header_is_stripped() {
    let data: Vec<u8> = (0u8..20).collect();
    assert_eq!(frame_after_link_header(&data, 16), &data[16..]);
    assert_eq!(frame_after_link_header(&data, 0), &data[..]);
    let short: Vec<u8> = (0u8..16).collect();
    assert_eq!(frame_after_link_header(&short, 16), &short[..]);
}
