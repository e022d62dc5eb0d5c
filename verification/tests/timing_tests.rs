use std::time::{Duration, SystemTime};

use poggy::components::{InputHandlerEx, PlayerComp, RenderComp, TestWoah, VelocityWithInputComp};
use poggy::debug_timer::EcsDebugTimer;
use poggy::timekeeping::{intended_frame_from, FrameStreamState, KnownFrameInfo, FRAME_DURATION_MILLIS};

#[test]
fn intended_frame_counts_whole_frames() {
    assert_eq!(FRAME_DURATION_MILLIS, 100);
    assert_eq!(intended_frame_from(5, 0), 5);
    assert_eq!(intended_frame_from(5, 99), 5);
    assert_eq!(intended_frame_from(5, 100), 6);
    assert_eq!(intended_frame_from(5, 250), 7);
}

#[test]
fn intended_frame_stays_at_last_index() {
    assert_eq!(intended_frame_from(usize::MAX - 1, 1000), usize::MAX);
    assert_eq!(intended_frame_from(3, u128::MAX), usize::MAX);
}

#[test]
fn intended_current_frame_counts_from_known_frame() {
    let past = SystemTime::now() - Duration::from_millis(1_000);
    let info = KnownFrameInfo { known_frame_index: 4, time: past };
    let frame = info.get_intended_current_frame().unwrap();
    assert!(frame >= 14);
    let renewed = KnownFrameInfo::new_from_current_time(&info).unwrap();
    assert!(renewed.known_frame_index >= 14);
}

#[test]
fn intended_current_frame_before_known_start_is_none() {
    let future = KnownFrameInfo { known_frame_index: 4, time: SystemTime::now() + Duration::from_secs(60) };
    assert_eq!(future.get_intended_current_frame(), None);
    assert!(KnownFrameInfo::new_from_current_time(&future).is_none());
}

#[test]
fn frame_stream_sends_each_frame_once_in_order() {
    let mut stream = FrameStreamState::start(3);
    assert_eq!(stream.poll(2), None);
    assert_eq!(stream.poll(4), Some(3));
    assert_eq!(stream.poll(4), Some(4));
    assert_eq!(stream.poll(4), None);
    assert_eq!(stream.poll(10), Some(5));
}

#[test]
fn debug_timer_records_each_stop() {
    let mut timer = EcsDebugTimer::new();
    assert!(timer.averages().is_empty());
    assert!(!timer.can_stop(&"systems".to_string()));
    timer.start_timer("systems".to_string());
    assert!(timer.can_stop(&"systems".to_string()));
    timer.stop_timer("systems".to_string());
    timer.start_timer("systems".to_string());
    timer.start_timer("render".to_string());
    timer.stop_timer("systems".to_string());
    timer.stop_timer("render".to_string());
    let mut averages = timer.averages();
    averages.sort();
    assert_eq!(averages.len(), 2);
    assert_eq!(averages[0].0, "render");
    assert_eq!(averages[1].0, "systems");
}

#[test]
fn components_hold_their_fields() {
    let p = PlayerComp { player_id: 3, connected: true };
    let r = RenderComp { hue: (255, 150, 150) };
    let v = VelocityWithInputComp { owner_id: 2 };
    let t = TestWoah { field: -1 };
    assert_eq!(p, PlayerComp { player_id: 3, connected: true });
    assert_eq!(r.hue.1, 150);
    assert_eq!(v.owner_id, 2);
    assert_eq!(t.field, -1);
    assert_eq!(InputHandlerEx {}, InputHandlerEx {});
}

#[test]
fn debug_timer_record_adds_exactly() {
    let mut timer = EcsDebugTimer::new();
    timer.record("physics".to_string(), 300);
    timer.record("physics".to_string(), 100);
    timer.record("render".to_string(), 7);
    let mut averages = timer.averages();
    averages.sort();
    assert_eq!(averages, vec![("physics".to_string(), 200), ("render".to_string(), 7)]);
}
