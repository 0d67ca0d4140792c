use redpitaya::presentation::{Application, EventLoop, FRAME_INTERVAL};
use redpitaya::worker::{Action, Event, Worker};

#[test]
fn new_application_has_everything_off() {
    let application = Application::new();
    assert!(!application.oscillo_started());
    assert!(!application.generator_started());
}

#[test]
fn untouched_switches_enqueue_nothing_while_off() {
    let mut application = Application::new();
    assert_eq!(application.set_widgets(None, None), Vec::<String>::new());
    assert!(!application.oscillo_started());
    assert!(!application.generator_started());
}

#[test]
fn oscillo_toggle_starts_and_queries() {
    let mut application = Application::new();
    assert_eq!(application.set_widgets(Some(true), None), vec!["oscillo/start", "oscillo/data"]);
    assert!(application.oscillo_started());
    assert_eq!(application.set_widgets(None, None), vec!["oscillo/data"]);
    assert_eq!(application.set_widgets(Some(false), None), vec!["oscillo/stop"]);
    assert!(!application.oscillo_started());
    assert_eq!(application.set_widgets(None, None), Vec::<String>::new());
}

#[test]
fn generator_toggle_starts_and_stops() {
    let mut application = Application::new();
    assert_eq!(application.set_widgets(None, Some(true)), vec!["generator/start"]);
    assert!(application.generator_started());
    assert!(!application.oscillo_started());
    assert_eq!(application.set_widgets(None, Some(false)), vec!["generator/stop"]);
    assert!(!application.generator_started());
}

#[test]
fn both_toggles_keep_their_order() {
    let mut application = Application::new();
    assert_eq!(
        application.set_widgets(Some(true), Some(true)),
        vec!["oscillo/start", "generator/start", "oscillo/data"]
    );
    assert_eq!(
        application.set_widgets(Some(false), Some(false)),
        vec!["oscillo/stop", "generator/stop"]
    );
    assert_eq!(
        application.set_widgets(Some(false), Some(true)),
        vec!["oscillo/stop", "generator/start"]
    );
    assert_eq!(
        application.set_widgets(Some(true), Some(false)),
        vec!["oscillo/start", "generator/stop", "oscillo/data"]
    );
}

#[test]
fn shutdown_stops_both() {
    let mut application = Application::new();
    assert_eq!(application.shutdown(), vec!["oscillo/stop", "generator/stop"]);
    application.set_widgets(Some(true), Some(true));
    assert_eq!(application.shutdown(), vec!["oscillo/stop", "generator/stop"]);
    assert!(application.oscillo_started());
}

#[test]
fn the_query_of_a_frame_is_never_refused() {
    let mut application = Application::new();
    let mut worker = Worker::new();
    let frames = [
        (None, None),
        (Some(true), None),
        (None, Some(true)),
        (None, None),
        (Some(false), Some(false)),
        (None, None),
        (Some(true), Some(true)),
    ];
    for (oscillo, generator) in frames {
        for token in application.set_widgets(oscillo, generator) {
            let mut action = worker.step(Event::Token(token));
            loop {
                action = match action {
                    Action::Write(_) => worker.step(Event::Sent),
                    Action::Read => worker.step(Event::Line("{0}\r\n".to_string())),
                    Action::Completed | Action::Deliver(_) => break,
                    other => panic!("{:?}", other),
                };
            }
        }
        assert_eq!(worker.acquire_is_started(), application.oscillo_started());
    }
}

#[test]
fn frame_interval_is_sixteen_milliseconds() {
    assert_eq!(FRAME_INTERVAL, 16_000_000);
}

#[test]
fn pause_fills_the_frame_interval() {
    let pacing = EventLoop::new(1_000_000_000);
    assert_eq!(pacing.pause(1_000_000_000), 16_000_000);
    assert_eq!(pacing.pause(1_000_000_001), 15_999_999);
    assert_eq!(pacing.pause(1_004_000_000), 12_000_000);
    assert_eq!(pacing.pause(1_015_999_999), 1);
    assert_eq!(pacing.pause(1_016_000_000), 0);
    assert_eq!(pacing.pause(2_000_000_000), 0);
    assert_eq!(pacing.pause(u64::MAX), 0);
}

#[test]
fn pause_takes_a_clock_that_went_back_as_no_time() {
    let pacing = EventLoop::new(1_000_000_000);
    assert_eq!(pacing.pause(999_999_999), 16_000_000);
    assert_eq!(pacing.pause(0), 16_000_000);
    assert_eq!(EventLoop::new(u64::MAX).pause(0), 16_000_000);
}

#[test]
fn loop_waits_only_when_idle() {
    let mut pacing = EventLoop::new(0);
    // The first frame is drawn without waiting.
    assert!(!pacing.must_wait(0));
    assert!(!pacing.must_wait(3));
    pacing.next(5);
    assert!(pacing.must_wait(0));
    assert!(!pacing.must_wait(1));
    pacing.needs_update();
    assert!(!pacing.must_wait(0));
    pacing.next(10);
    assert!(pacing.must_wait(0));
}

#[test]
fn next_moves_the_last_update() {
    let mut pacing = EventLoop::new(0);
    pacing.next(100_000_000);
    assert_eq!(pacing.pause(100_000_000), 16_000_000);
    assert_eq!(pacing.pause(110_000_000), 6_000_000);
    pacing.needs_update();
    assert_eq!(pacing.pause(110_000_000), 6_000_000);
}
