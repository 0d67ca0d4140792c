use redpitaya::worker::{Action, Event, Phase, Worker};

fn token(text: &str) -> Event {
    Event::Token(text.to_string())
}

#[test]
fn new_worker_is_idle_and_not_started() {
    let worker = Worker::new();
    assert!(worker.is_idle());
    assert_eq!(worker.phase(), Phase::Idle);
    assert!(!worker.acquire_is_started());
}

#[test]
fn start_then_data_delivers_the_reply_once() {
    let mut worker = Worker::new();
    assert_eq!(worker.step(token("oscillo/start")), Action::Write("ACQ:START\r\n".to_string()));
    assert_eq!(worker.phase(), Phase::Writing { expects_reply: false });
    assert_eq!(worker.step(Event::Sent), Action::Completed);
    assert!(worker.is_idle());
    assert!(worker.acquire_is_started());

    assert_eq!(worker.step(token("oscillo/data")), Action::Write("ACQ:SOUR1:DATA?\r\n".to_string()));
    assert_eq!(worker.phase(), Phase::Writing { expects_reply: true });
    assert_eq!(worker.step(Event::Sent), Action::Read);
    assert_eq!(worker.phase(), Phase::Reading);
    assert_eq!(
        worker.step(Event::Line("{1.0,2.0,3.0}\r\n".to_string())),
        Action::Deliver("{1.0,2.0,3.0}".to_string())
    );
    assert!(worker.is_idle());

    // The reply is delivered once: a second line finds nobody waiting.
    assert_eq!(worker.step(Event::Line("{1.0,2.0,3.0}\r\n".to_string())), Action::Ignored);
    assert!(worker.is_idle());
}

#[test]
fn data_without_start_sends_nothing() {
    let mut worker = Worker::new();
    assert_eq!(worker.step(token("oscillo/data")), Action::Refused);
    assert!(worker.is_idle());
    assert!(!worker.acquire_is_started());
    // Repeating it changes nothing.
    assert_eq!(worker.step(token("oscillo/data")), Action::Refused);
    assert!(worker.is_idle());
    assert!(!worker.acquire_is_started());
}

#[test]
fn data_after_stop_sends_nothing() {
    let mut worker = Worker::new();
    worker.step(token("oscillo/start"));
    worker.step(Event::Sent);
    assert_eq!(worker.step(token("oscillo/stop")), Action::Write("ACQ:STOP\r\n".to_string()));
    assert_eq!(worker.step(Event::Sent), Action::Completed);
    assert!(!worker.acquire_is_started());
    assert_eq!(worker.step(token("oscillo/data")), Action::Refused);
}

#[test]
fn sinc_selects_the_sine_waveform_and_waits_for_no_reply() {
    let mut worker = Worker::new();
    assert_eq!(
        worker.step(token("generator/sinc")),
        Action::Write("OUTPUT1:FUNC sine\r\n".to_string())
    );
    assert_eq!(worker.step(Event::Sent), Action::Completed);
    assert!(worker.is_idle());
}

#[test]
fn generator_tokens_have_their_commands() {
    let mut worker = Worker::new();
    assert_eq!(
        worker.step(token("generator/start")),
        Action::Write("OUTPUT1:STATE ON\r\n".to_string())
    );
    assert_eq!(worker.step(Event::Sent), Action::Completed);
    assert_eq!(
        worker.step(token("generator/stop")),
        Action::Write("OUTPUT1:STATE OFF\r\n".to_string())
    );
    assert_eq!(worker.step(Event::Sent), Action::Completed);
    assert!(!worker.acquire_is_started());
}

#[test]
fn failed_write_does_not_stick() {
    let mut worker = Worker::new();
    assert_eq!(worker.step(token("oscillo/start")), Action::Write("ACQ:START\r\n".to_string()));
    assert_eq!(worker.step(Event::Failed), Action::Abandoned);
    assert!(worker.is_idle());
    assert_eq!(worker.step(token("oscillo/stop")), Action::Write("ACQ:STOP\r\n".to_string()));
    assert_eq!(worker.step(Event::Sent), Action::Completed);
    assert!(worker.is_idle());
}

#[test]
fn started_follows_the_token_even_if_the_write_fails() {
    let mut worker = Worker::new();
    worker.step(token("oscillo/start"));
    assert_eq!(worker.step(Event::Failed), Action::Abandoned);
    assert!(worker.acquire_is_started());
}

#[test]
fn failed_write_of_a_query_reads_nothing() {
    let mut worker = Worker::new();
    worker.step(token("oscillo/start"));
    worker.step(Event::Sent);
    worker.step(token("oscillo/data"));
    assert_eq!(worker.step(Event::Failed), Action::Abandoned);
    assert!(worker.is_idle());
}

#[test]
fn failed_read_delivers_nothing() {
    let mut worker = Worker::new();
    worker.step(token("oscillo/start"));
    worker.step(Event::Sent);
    worker.step(token("oscillo/data"));
    assert_eq!(worker.step(Event::Sent), Action::Read);
    assert_eq!(worker.step(Event::Failed), Action::Abandoned);
    assert!(worker.is_idle());
    assert!(worker.acquire_is_started());
}

#[test]
fn unknown_token_is_dropped() {
    let mut worker = Worker::new();
    assert_eq!(worker.step(token("oscillo/reset")), Action::Unknown);
    assert_eq!(worker.step(token("")), Action::Unknown);
    assert_eq!(worker.step(token("OSCILLO/START")), Action::Unknown);
    assert_eq!(worker.step(token("oscillo/start ")), Action::Unknown);
    assert!(worker.is_idle());
    assert!(!worker.acquire_is_started());
}

#[test]
fn events_out_of_turn_are_ignored() {
    let mut worker = Worker::new();
    assert_eq!(worker.step(Event::Sent), Action::Ignored);
    assert_eq!(worker.step(Event::Failed), Action::Ignored);
    assert_eq!(worker.step(Event::Line("x\r\n".to_string())), Action::Ignored);
    assert!(worker.is_idle());

    worker.step(token("oscillo/start"));
    assert_eq!(worker.step(token("oscillo/stop")), Action::Ignored);
    assert_eq!(worker.step(Event::Line("x\r\n".to_string())), Action::Ignored);
    assert_eq!(worker.phase(), Phase::Writing { expects_reply: false });
    assert!(worker.acquire_is_started());
    worker.step(Event::Sent);

    worker.step(token("oscillo/data"));
    worker.step(Event::Sent);
    assert_eq!(worker.step(Event::Sent), Action::Ignored);
    assert_eq!(worker.step(token("oscillo/stop")), Action::Ignored);
    assert_eq!(worker.phase(), Phase::Reading);
}

#[test]
fn wire_commands_keep_the_order_of_the_tokens() {
    let tokens = [
        "generator/start",
        "oscillo/data",
        "bogus",
        "oscillo/start",
        "oscillo/data",
        "generator/sinc",
        "oscillo/stop",
        "oscillo/data",
        "generator/stop",
    ];
    let mut worker = Worker::new();
    let mut written: Vec<String> = Vec::new();
    for text in tokens {
        let mut action = worker.step(token(text));
        loop {
            match action {
                Action::Write(line) => {
                    written.push(line);
                    action = worker.step(Event::Sent);
                }
                Action::Read => {
                    action = worker.step(Event::Line("{0}\r\n".to_string()));
                }
                _ => break,
            }
        }
        assert!(worker.is_idle());
    }
    assert_eq!(
        written,
        vec![
            "OUTPUT1:STATE ON\r\n".to_string(),
            "ACQ:START\r\n".to_string(),
            "ACQ:SOUR1:DATA?\r\n".to_string(),
            "OUTPUT1:FUNC sine\r\n".to_string(),
            "ACQ:STOP\r\n".to_string(),
            "OUTPUT1:STATE OFF\r\n".to_string(),
        ]
    );
}

#[test]
fn reply_is_delivered_verbatim() {
    let mut worker = Worker::new();
    worker.step(token("oscillo/start"));
    worker.step(Event::Sent);
    worker.step(token("oscillo/data"));
    worker.step(Event::Sent);
    assert_eq!(
        worker.step(Event::Line("not a list at all\r\n".to_string())),
        Action::Deliver("not a list at all".to_string())
    );
}
