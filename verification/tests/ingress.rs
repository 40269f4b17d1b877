use ct_firehose_filter::ingress::{
    drain_step, DrainAction, DrainInput, Ingress, IngressAction, IngressInput, WsMessage,
};
use ct_firehose_filter::{
    next_backoff, with_jitter, IngressError, PipelineMetrics, ReconnectPolicy, Span,
    CLIENT_PING_SECS,
};

#[test]
fn backoff_doubles_until_cap() {
    let max = Span::from_secs(16);
    assert_eq!(next_backoff(Span::from_secs(1), max), Span::from_secs(2));
    assert_eq!(next_backoff(Span::from_secs(8), max), Span::from_secs(16));
    assert_eq!(next_backoff(Span::from_secs(16), max), Span::from_secs(16));
}

#[test]
fn jitter_stays_within_half_to_full() {
    let base = Span::from_millis(1000);
    for i in 0..32u64 {
        let j = with_jitter(base, i.wrapping_mul(0x9e37_79b9_7f4a_7c15));
        assert!(j >= Span::from_millis(500));
        assert!(j <= Span::from_millis(1000));
    }
}

#[test]
fn backoff_doubles_and_jitter_stays_in_band() {
    let max = Span::from_millis(500);
    let mut d = Span::from_millis(40);
    d = next_backoff(d, max);
    assert_eq!(d, Span::from_millis(80));
    d = next_backoff(d, max);
    assert_eq!(d, Span::from_millis(160));
    d = next_backoff(d, max);
    assert_eq!(d, Span::from_millis(320));
    d = next_backoff(d, max);
    assert_eq!(d, Span::from_millis(500));

    let base = Span::from_millis(200);
    for seed in 0..202u64 {
        let j = with_jitter(base, seed);
        assert!(j >= Span::from_millis(100) && j <= base);
    }
}

#[test]
fn jitter_is_exact_for_a_seed() {
    let base = Span::from_millis(1001);
    assert_eq!(with_jitter(base, 0), Span::from_millis(500));
    assert_eq!(with_jitter(base, 501), Span::from_millis(1001));
    assert_eq!(with_jitter(base, 502), Span::from_millis(500));
    assert_eq!(with_jitter(Span::from_millis(1), 7), Span::from_millis(1));
    assert_eq!(with_jitter(Span::zero(), 7), Span::zero());
    let long = Span::from_nanos(u128::MAX);
    assert_eq!(with_jitter(long, 7), long);
}

#[test]
fn backoff_is_never_below_a_millisecond() {
    assert_eq!(
        next_backoff(Span::zero(), Span::from_secs(1)),
        Span::from_millis(1)
    );
    let long = Span::from_nanos(u128::MAX);
    assert_eq!(next_backoff(long, long), long);
    assert_eq!(long.as_nanos(), 18_446_744_073_709_551_615_999_999_999);
}

#[test]
fn frames_are_forwarded_and_pings_answered() {
    let on = |m: WsMessage| drain_step(DrainInput::Message(m));
    assert_eq!(
        on(WsMessage::Text(b"{}".to_vec())),
        DrainAction::Forward(b"{}".to_vec())
    );
    assert_eq!(
        on(WsMessage::Binary(vec![1, 2])),
        DrainAction::Forward(vec![1, 2])
    );
    assert_eq!(
        on(WsMessage::Ping(vec![9])),
        DrainAction::WritePong(vec![9])
    );
    assert_eq!(on(WsMessage::Pong), DrainAction::Await);
    assert_eq!(on(WsMessage::Frame), DrainAction::Await);
    assert_eq!(on(WsMessage::Close), DrainAction::Leave);
    assert_eq!(on(WsMessage::End), DrainAction::Leave);
    assert_eq!(
        on(WsMessage::Broken("reset".into())),
        DrainAction::Fail(IngressError::Io("reset".into()))
    );
    assert_eq!(drain_step(DrainInput::PingDue), DrainAction::WritePing);
    assert_eq!(drain_step(DrainInput::Cancelled), DrainAction::Leave);
    assert_eq!(drain_step(DrainInput::Wrote(true)), DrainAction::Await);
    assert_eq!(drain_step(DrainInput::Wrote(false)), DrainAction::Leave);
    assert_eq!(drain_step(DrainInput::Forwarded(true)), DrainAction::Await);
    assert_eq!(drain_step(DrainInput::Forwarded(false)), DrainAction::Leave);
}

#[test]
fn the_client_reconnects_with_growing_pauses() {
    let policy = ReconnectPolicy {
        initial: Span::from_millis(100),
        max: Span::from_millis(350),
        ..ReconnectPolicy::default()
    };
    let mut client = Ingress::new(policy);
    let mut m = PipelineMetrics::new();
    let mut delays = Vec::new();
    assert_eq!(
        client.step(IngressInput::Begin, false, &mut m),
        IngressAction::Connect
    );
    for _ in 0..4 {
        delays.push(client.delay.as_millis());
        let half = client.delay.as_millis() as u64 / 2;
        assert_eq!(
            client.step(IngressInput::Ended { seed: 0 }, false, &mut m),
            IngressAction::Sleep {
                pause: Span::from_millis(half)
            }
        );
        assert!(client.connected_once);
        assert_eq!(
            client.step(IngressInput::Slept, false, &mut m),
            IngressAction::Connect
        );
    }
    assert_eq!(delays, vec![100, 200, 350, 350]);
    assert_eq!(m.reconnects, 4);
    assert_eq!(
        client.step(IngressInput::Ended { seed: 0 }, true, &mut m),
        IngressAction::Stop
    );
    assert_eq!(m.reconnects, 4);
}

#[test]
fn default_policy_pings_every_thirty_seconds() {
    let p = ReconnectPolicy::default();
    assert_eq!(p.initial, Span::from_secs(2));
    assert_eq!(p.max, Span::from_secs(60));
    assert_eq!(p.ping_interval, Span::from_secs(CLIENT_PING_SECS));
    assert_eq!(CLIENT_PING_SECS, 30);
}
