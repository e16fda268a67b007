use timetable_archive::coordinator::{
    conclude, preflight, render_status, Preflight, ReportedState, State,
};

const NOW: i64 = 1_700_000_000;

fn record(state: State, age_secs: i64) -> Option<ReportedState> {
    Some(ReportedState { state, timestamp: NOW - age_secs })
}

#[test]
fn a_fresh_started_record_blocks_the_run() {
    let remote = record(State::STARTED, 30 * 60);
    assert_eq!(preflight(&remote, NOW), Preflight::AbortAlreadyRunning);
}

#[test]
fn a_stale_started_record_does_not_block() {
    let remote = record(State::STARTED, 90 * 60);
    assert_eq!(preflight(&remote, NOW), Preflight::Proceed);
}

#[test]
fn a_fresh_success_record_blocks_the_run() {
    let remote = record(State::SUCCESS, 10 * 60);
    assert_eq!(preflight(&remote, NOW), Preflight::AbortAlreadyDone);
}

#[test]
fn a_stale_success_record_does_not_block() {
    let remote = record(State::SUCCESS, 61 * 60);
    assert_eq!(preflight(&remote, NOW), Preflight::Proceed);
}

#[test]
fn a_fresh_error_record_never_blocks() {
    for age_minutes in [0i64, 15, 30, 59] {
        let remote = record(State::ERROR("x".to_string()), age_minutes * 60);
        assert_eq!(preflight(&remote, NOW), Preflight::ProceedDespiteRemoteError);
    }
}

#[test]
fn no_information_fails_open() {
    assert_eq!(preflight(&None, NOW), Preflight::Proceed);
}

#[test]
fn the_window_boundary_is_exclusive() {
    // Exactly one hour old: timestamp + 3600 == now is no longer fresh.
    let remote = record(State::STARTED, 3600);
    assert_eq!(preflight(&remote, NOW), Preflight::Proceed);
    // One second younger still blocks.
    let remote = record(State::STARTED, 3599);
    assert_eq!(preflight(&remote, NOW), Preflight::AbortAlreadyRunning);
}

#[test]
fn success_and_started_render_as_plain_tags() {
    let out = render_status(&State::SUCCESS, "2023-11-14T22:13:20Z");
    assert_eq!(
        String::from_utf8(out).unwrap(),
        "{\"state\":\"SUCCESS\",\"timestamp\":\"2023-11-14T22:13:20Z\"}"
    );
    let out = render_status(&State::STARTED, "2023-11-14T22:13:20Z");
    assert_eq!(
        String::from_utf8(out).unwrap(),
        "{\"state\":\"STARTED\",\"timestamp\":\"2023-11-14T22:13:20Z\"}"
    );
}

#[test]
fn an_error_renders_with_its_escaped_message() {
    let state = State::ERROR("he said \"no\"\nand left".to_string());
    let out = render_status(&state, "2023-11-14T22:13:20Z");
    assert_eq!(
        String::from_utf8(out).unwrap(),
        "{\"state\":{\"ERROR\":\"he said \\\"no\\\"\\nand left\"},\"timestamp\":\"2023-11-14T22:13:20Z\"}"
    );
}

#[test]
fn control_characters_render_as_unicode_escapes() {
    let state = State::ERROR("a\u{1}b\u{1f}c".to_string());
    let out = render_status(&state, "t");
    assert_eq!(
        String::from_utf8(out).unwrap(),
        "{\"state\":{\"ERROR\":\"a\\u0001b\\u001fc\"},\"timestamp\":\"t\"}"
    );
}

#[test]
fn rendered_records_parse_as_real_json() {
    let state = State::ERROR("ä \"x\"\n\u{3}".to_string());
    let out = render_status(&state, "2023-01-01T00:00:00Z");
    let value: serde_json::Value = serde_json::from_slice(&out).unwrap();
    assert_eq!(value["timestamp"], "2023-01-01T00:00:00Z");
    assert_eq!(value["state"]["ERROR"], "ä \"x\"\n\u{3}");

    let out = render_status(&State::SUCCESS, "t");
    let value: serde_json::Value = serde_json::from_slice(&out).unwrap();
    assert_eq!(value["state"], "SUCCESS");
}

#[test]
fn conclude_maps_outcomes_to_final_states() {
    assert_eq!(conclude(&Ok(())), State::SUCCESS);
    assert_eq!(
        conclude(&Err("saving failed".to_string())),
        State::ERROR("saving failed".to_string())
    );
}
