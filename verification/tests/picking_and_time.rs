use asf_kai::picking::{decode_pick_results, GPUPicking, ReadbackStatus, MAX_PICK_RESULTS};
use asf_kai::time::Time;

#[test]
fn pick_dispatches_a_box_centred_on_the_cursor() {
    let mut p = GPUPicking::new();
    assert!(!p.is_picking_in_progress());
    let d = p.pick((10, 10), 5).unwrap();
    assert_eq!(d.selection_box, [8, 8, 5, 5]);
    assert_eq!((d.dispatch_x, d.dispatch_y), (1, 1));
    assert!(p.is_picking_in_progress());
    assert!(p.pick((50, 50), 5).is_none());
}

#[test]
fn pick_box_is_clamped_at_the_screen_corner() {
    let mut p = GPUPicking::new();
    let d = p.pick((1, 1), 17).unwrap();
    assert_eq!(d.selection_box, [0, 0, 17, 17]);
    assert_eq!((d.dispatch_x, d.dispatch_y), (3, 3));
}

#[test]
fn readback_completes_the_pick() {
    let mut p = GPUPicking::new();
    p.pick((4, 4), 2);
    assert!(!p.check_and_update_result(ReadbackStatus::NotReady));
    assert!(p.is_picking_in_progress());
    assert!(p.check_and_update_result(ReadbackStatus::Mapped(vec![2, 42, 7, 0])));
    assert!(!p.is_picking_in_progress());
    assert_eq!(p.get_last_result(), Some(&vec![42, 7]));
    assert!(!p.check_and_update_result(ReadbackStatus::Mapped(vec![1, 1])));
    p.clear_result();
    assert_eq!(p.get_last_result(), None);
}

#[test]
fn failed_readbacks_end_the_pick_without_result() {
    let mut p = GPUPicking::new();
    p.pick((4, 4), 2);
    assert!(p.check_and_update_result(ReadbackStatus::MapFailed));
    assert_eq!(p.get_last_result(), None);
    p.pick((4, 4), 2);
    assert!(p.check_and_update_result(ReadbackStatus::ChannelClosed));
    assert!(!p.is_picking_in_progress());
    assert_eq!(p.get_last_result(), None);
}

#[test]
fn pick_results_are_capped() {
    let mut words = vec![1000u32];
    words.extend(0..300u32);
    let ids = decode_pick_results(&words).unwrap();
    assert_eq!(ids.len(), MAX_PICK_RESULTS as usize);
    assert_eq!(ids[0], 0);
    assert_eq!(decode_pick_results(&[0, 5]), None);
}

#[test]
fn time_accumulates_the_deltas() {
    let mut t = Time::new();
    assert_eq!((t.delta_nanos(), t.elapsed_nanos()), (0, 0));
    t.update();
    let first = t.delta_nanos();
    assert_eq!(t.elapsed_nanos(), first);
    t.update();
    assert_eq!(t.elapsed_nanos(), first + t.delta_nanos());
    let d = Time::default();
    assert_eq!(d.elapsed_nanos(), 0);
}

#[test]
fn advancing_the_clock_adds_the_delta() {
    let mut t = Time::new();
    t.advance(std::time::Instant::now(), 5);
    assert_eq!((t.delta_nanos(), t.elapsed_nanos()), (5, 5));
    t.advance(std::time::Instant::now(), 7);
    assert_eq!((t.delta_nanos(), t.elapsed_nanos()), (7, 12));
    t.advance(std::time::Instant::now(), asf_kai::time::DURATION_MAX_NANOS);
    assert_eq!(t.elapsed_nanos(), asf_kai::time::DURATION_MAX_NANOS);
}

#[test]
fn pick_while_busy_returns_at_once_for_any_box_size() {
    let mut p = GPUPicking::new();
    p.pick((3, 3), 4).unwrap();
    assert!(p.pick((3, 3), u32::MAX).is_none());
    assert!(p.is_picking_in_progress());
    assert_eq!(p.get_last_result(), None);
}

#[test]
fn pick_accepts_the_largest_box_the_dispatch_count_allows() {
    let mut p = GPUPicking::new();
    let s = u32::MAX - 8;
    let d = p.pick((0, 0), s).unwrap();
    assert_eq!(d.selection_box, [0, 0, s, s]);
    assert_eq!(d.dispatch_x, (s + 7) / 8);
}
