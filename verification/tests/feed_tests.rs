use orderbook_heatmap::feed::{
    backoff_delay_secs, subscription_request, FeedAction, FeedClient, FeedEvent, FeedPhase,
};

#[test]
fn backoff_doubles_and_caps_at_thirty_seconds() {
    assert_eq!(backoff_delay_secs(0), 1);
    assert_eq!(backoff_delay_secs(1), 2);
    assert_eq!(backoff_delay_secs(2), 4);
    assert_eq!(backoff_delay_secs(3), 8);
    assert_eq!(backoff_delay_secs(4), 16);
    assert_eq!(backoff_delay_secs(5), 30);
    assert_eq!(backoff_delay_secs(40), 30);
}

#[test]
fn two_connect_failures_back_off_two_then_four_seconds() {
    // First attempt, then two failures in a row: the second retry waits two
    // seconds, the third four; the count resets after a subscription
    // succeeds.
    let mut c = FeedClient::new();
    assert!(matches!(c.on_event(FeedEvent::Start), FeedAction::RetryAfter { delay_secs: 0 }));
    assert!(matches!(
        c.on_event(FeedEvent::ConnectFailed),
        FeedAction::RetryAfter { delay_secs: 2 }
    ));
    assert!(matches!(
        c.on_event(FeedEvent::ConnectFailed),
        FeedAction::RetryAfter { delay_secs: 4 }
    ));
    assert!(matches!(c.on_event(FeedEvent::ConnectOk), FeedAction::SendSubscribe));
    assert!(matches!(c.on_event(FeedEvent::SubscribeOk), FeedAction::Receive));
    assert_eq!(c.retry_count, 0);
    assert!(matches!(c.phase, FeedPhase::Streaming));
}

#[test]
fn backoff_caps_after_many_failures() {
    let mut c = FeedClient::new();
    c.on_event(FeedEvent::Start);
    let mut last: u64 = 0;
    for _ in 0..8 {
        if let FeedAction::RetryAfter { delay_secs } = c.on_event(FeedEvent::ConnectFailed) {
            last = delay_secs;
        } else {
            panic!("a connect failure must schedule a retry");
        }
    }
    assert_eq!(last, 30);
    assert_eq!(c.retry_count, 8);
}

#[test]
fn stream_end_reconnects_at_once_and_queue_close_exits() {
    let mut c = FeedClient::new();
    c.on_event(FeedEvent::Start);
    c.on_event(FeedEvent::ConnectOk);
    c.on_event(FeedEvent::SubscribeOk);
    assert!(matches!(
        c.on_event(FeedEvent::StreamEnded),
        FeedAction::RetryAfter { delay_secs: 0 }
    ));
    c.on_event(FeedEvent::ConnectOk);
    c.on_event(FeedEvent::SubscribeOk);
    assert!(matches!(c.on_event(FeedEvent::QueueClosed), FeedAction::Exit));
    assert!(matches!(c.phase, FeedPhase::Disconnected));
}

#[test]
fn subscribe_failure_also_backs_off() {
    let mut c = FeedClient::new();
    c.on_event(FeedEvent::Start);
    c.on_event(FeedEvent::ConnectOk);
    assert!(matches!(
        c.on_event(FeedEvent::SubscribeFailed),
        FeedAction::RetryAfter { delay_secs: 2 }
    ));
    assert_eq!(c.retry_count, 1);
}

#[test]
fn subscription_request_has_the_wire_shape() {
    let req = subscription_request();
    assert_eq!(
        req,
        "{\"method\":\"subscribe\",\"subscription\":{\"type\":\"l2Book\",\"coin\":\"@107\",\"nSigFigs\":5}}"
    );
    let v: serde_json::Value = serde_json::from_str(&req).expect("the request is well-formed");
    assert_eq!(v["method"], "subscribe");
    assert_eq!(v["subscription"]["type"], "l2Book");
    assert_eq!(v["subscription"]["coin"], "@107");
    assert_eq!(v["subscription"]["nSigFigs"], 5);
}
