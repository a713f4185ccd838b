use binance_ws::connector::{
    backoff_delay_ms, Connector, ConnectorAction, ConnectorEvent, ConnectorState, BASE_DELAY_MS,
    STALE_AFTER_MS,
};

#[test]
fn backoff_schedule() {
    assert_eq!(backoff_delay_ms(0), 5000);
    assert_eq!(backoff_delay_ms(2), 11250);
}

#[test]
fn backoff_grows_by_half_each_attempt() {
    assert_eq!(BASE_DELAY_MS, 5000);
    assert_eq!(backoff_delay_ms(1), 7500);
    assert_eq!(backoff_delay_ms(3), 16875);
    // 5000 * 1.5^4 = 25312.5, rounded down.
    assert_eq!(backoff_delay_ms(4), 25312);
    // 5000 * 1.5^5 = 37968.75
    assert_eq!(backoff_delay_ms(5), 37968);
    // 5000 * 3^10 / 2^10 = 288325.195...
    assert_eq!(backoff_delay_ms(10), 288325);
}

#[test]
fn backoff_matches_exact_arithmetic() {
    let mut numerator: u128 = 5000;
    let mut denominator: u128 = 1;
    for attempt in 0..60u32 {
        assert_eq!(backoff_delay_ms(attempt) as u128, numerator / denominator);
        numerator *= 3;
        denominator *= 2;
    }
}

#[test]
fn backoff_is_held_at_the_largest_delay() {
    // 5000 * 1.5^88 is below 2^64 and 5000 * 1.5^89 is above.
    assert!(backoff_delay_ms(88) < u64::MAX);
    assert!(backoff_delay_ms(88) > u64::MAX / 2);
    assert_eq!(backoff_delay_ms(89), u64::MAX);
    assert_eq!(backoff_delay_ms(95), u64::MAX);
    assert_eq!(backoff_delay_ms(96), u64::MAX);
    assert_eq!(backoff_delay_ms(u32::MAX), u64::MAX);
}

#[test]
fn backoff_never_shrinks() {
    let mut last = 0;
    for attempt in 0..120u32 {
        let delay = backoff_delay_ms(attempt);
        assert!(delay >= last);
        last = delay;
    }
}

#[test]
fn connector_starts_disconnected() {
    let connector = Connector::new(4);
    assert_eq!(connector.state, ConnectorState::Disconnected);
    assert_eq!(connector.reconnect_attempts, 0);
    assert_eq!(connector.symbol_count, 4);
}

#[test]
fn a_full_cycle_connects_fetches_and_streams() {
    let mut c = Connector::new(2);
    assert_eq!(c.step(ConnectorEvent::Wake), ConnectorAction::Connect);
    assert_eq!(c.state, ConnectorState::Connecting);
    assert_eq!(
        c.step(ConnectorEvent::Connected { now: 10 }),
        ConnectorAction::FetchSnapshot { index: 0 }
    );
    assert_eq!(c.state, ConnectorState::SnapshotFetch { fetched: 0 });
    assert_eq!(
        c.step(ConnectorEvent::SnapshotEmitted { now: 20 }),
        ConnectorAction::FetchSnapshot { index: 1 }
    );
    assert_eq!(c.state, ConnectorState::SnapshotFetch { fetched: 1 });
    assert_eq!(c.step(ConnectorEvent::SnapshotEmitted { now: 30 }), ConnectorAction::Receive);
    assert_eq!(c.state, ConnectorState::Streaming { last_message: 30 });
    assert_eq!(c.step(ConnectorEvent::Message { now: 45 }), ConnectorAction::Receive);
    assert_eq!(c.state, ConnectorState::Streaming { last_message: 45 });
    assert_eq!(c.reconnect_attempts, 0);
}

#[test]
fn without_symbols_streaming_starts_at_once() {
    let mut c = Connector::new(0);
    c.step(ConnectorEvent::Wake);
    assert_eq!(c.step(ConnectorEvent::Connected { now: 7 }), ConnectorAction::Receive);
    assert_eq!(c.state, ConnectorState::Streaming { last_message: 7 });
}

#[test]
fn a_quiet_stream_goes_stale_after_ten_seconds() {
    assert_eq!(STALE_AFTER_MS, 10000);
    let mut c = Connector::new(0);
    c.step(ConnectorEvent::Wake);
    c.step(ConnectorEvent::Connected { now: 1000 });
    assert_eq!(c.step(ConnectorEvent::Tick { now: 11000 }), ConnectorAction::Receive);
    assert_eq!(c.state, ConnectorState::Streaming { last_message: 1000 });
    assert_eq!(c.step(ConnectorEvent::Tick { now: 500 }), ConnectorAction::Receive);
    assert_eq!(
        c.step(ConnectorEvent::Tick { now: 11001 }),
        ConnectorAction::Sleep { millis: 7500 }
    );
    assert_eq!(c.state, ConnectorState::Disconnected);
    assert_eq!(c.reconnect_attempts, 1);
}

#[test]
fn a_message_renews_the_liveness_stamp() {
    let mut c = Connector::new(0);
    c.step(ConnectorEvent::Wake);
    c.step(ConnectorEvent::Connected { now: 0 });
    c.step(ConnectorEvent::Message { now: 9000 });
    assert_eq!(c.step(ConnectorEvent::Tick { now: 19000 }), ConnectorAction::Receive);
    assert_eq!(c.state, ConnectorState::Streaming { last_message: 9000 });
}

#[test]
fn failures_back_off_and_a_clean_end_resets() {
    let mut c = Connector::new(1);
    c.step(ConnectorEvent::Wake);
    assert_eq!(c.step(ConnectorEvent::Failed), ConnectorAction::Sleep { millis: 7500 });
    assert_eq!(c.reconnect_attempts, 1);
    c.step(ConnectorEvent::Wake);
    c.step(ConnectorEvent::Connected { now: 0 });
    assert_eq!(c.step(ConnectorEvent::Failed), ConnectorAction::Sleep { millis: 11250 });
    assert_eq!(c.reconnect_attempts, 2);
    c.step(ConnectorEvent::Wake);
    c.step(ConnectorEvent::Connected { now: 0 });
    c.step(ConnectorEvent::SnapshotEmitted { now: 0 });
    assert_eq!(c.step(ConnectorEvent::Failed), ConnectorAction::Sleep { millis: 16875 });
    assert_eq!(c.reconnect_attempts, 3);
    c.step(ConnectorEvent::Wake);
    c.step(ConnectorEvent::Connected { now: 0 });
    c.step(ConnectorEvent::SnapshotEmitted { now: 0 });
    assert_eq!(c.step(ConnectorEvent::Closed), ConnectorAction::Sleep { millis: 5000 });
    assert_eq!(c.reconnect_attempts, 0);
    assert_eq!(c.state, ConnectorState::Disconnected);
}

#[test]
fn a_close_before_streaming_counts_as_a_failure() {
    let mut c = Connector::new(1);
    c.step(ConnectorEvent::Wake);
    assert_eq!(c.step(ConnectorEvent::Closed), ConnectorAction::Sleep { millis: 7500 });
    c.step(ConnectorEvent::Wake);
    c.step(ConnectorEvent::Connected { now: 0 });
    assert_eq!(c.step(ConnectorEvent::Closed), ConnectorAction::Sleep { millis: 11250 });
    assert_eq!(c.reconnect_attempts, 2);
}

#[test]
fn events_out_of_place_are_ignored() {
    let mut c = Connector::new(1);
    for event in [
        ConnectorEvent::Connected { now: 1 },
        ConnectorEvent::SnapshotEmitted { now: 1 },
        ConnectorEvent::Message { now: 1 },
        ConnectorEvent::Tick { now: 100_000 },
        ConnectorEvent::Closed,
        ConnectorEvent::Failed,
    ] {
        assert_eq!(c.step(event), ConnectorAction::Ignore);
        assert_eq!(c, Connector::new(1));
    }
    c.step(ConnectorEvent::Wake);
    for event in [
        ConnectorEvent::Wake,
        ConnectorEvent::SnapshotEmitted { now: 1 },
        ConnectorEvent::Message { now: 1 },
        ConnectorEvent::Tick { now: 100_000 },
    ] {
        assert_eq!(c.step(event), ConnectorAction::Ignore);
        assert_eq!(c.state, ConnectorState::Connecting);
    }
    c.step(ConnectorEvent::Connected { now: 0 });
    for event in [
        ConnectorEvent::Wake,
        ConnectorEvent::Connected { now: 1 },
        ConnectorEvent::Message { now: 1 },
        ConnectorEvent::Tick { now: 100_000 },
    ] {
        assert_eq!(c.step(event), ConnectorAction::Ignore);
        assert_eq!(c.state, ConnectorState::SnapshotFetch { fetched: 0 });
    }
    c.step(ConnectorEvent::SnapshotEmitted { now: 0 });
    for event in [
        ConnectorEvent::Wake,
        ConnectorEvent::Connected { now: 1 },
        ConnectorEvent::SnapshotEmitted { now: 1 },
    ] {
        assert_eq!(c.step(event), ConnectorAction::Ignore);
        assert_eq!(c.state, ConnectorState::Streaming { last_message: 0 });
    }
}

#[test]
fn the_failure_count_is_held_at_its_largest() {
    let mut c = Connector {
        state: ConnectorState::Connecting,
        reconnect_attempts: u32::MAX,
        symbol_count: 1,
    };
    assert_eq!(c.step(ConnectorEvent::Failed), ConnectorAction::Sleep { millis: u64::MAX });
    assert_eq!(c.reconnect_attempts, u32::MAX);
}
