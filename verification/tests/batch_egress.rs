use ct_firehose_filter::batch::Queued;
use ct_firehose_filter::egress::{check_batch, check_queue_answer};
use ct_firehose_filter::{
    BatchAction, BatchConfig, BatchInput, Batcher, EgressError, MatchEvent, PipelineMetrics,
    RecordingSink, Span, StdoutSink, BATCH_MAX_BYTES,
};

fn cfg(flush: Span) -> BatchConfig {
    BatchConfig {
        max_messages: 10,
        max_bytes: BATCH_MAX_BYTES,
        flush_interval: flush,
    }
}

fn sample_event(n: usize) -> MatchEvent {
    MatchEvent::new(
        vec![format!("hit-{n}.example.com")],
        vec!["example".into()],
        Some((1_700_000_000.0 + n as f64).to_bits()),
        Some("test-log".into()),
        Some(format!("fp-{n}")),
    )
}

fn huge_event(tag: &str, approx_bytes: usize) -> MatchEvent {
    let pad = "x".repeat(approx_bytes);
    MatchEvent::new(
        vec![format!("{tag}.example.com")],
        vec!["example".into()],
        None,
        Some(pad),
        Some(tag.into()),
    )
}

/// The length of an event as one JSON object.
fn json_len(ev: &MatchEvent) -> usize {
    let mut o = serde_json::Map::new();
    o.insert("matched_domains".into(), ev.matched_domains.clone().into());
    o.insert("matched_keywords".into(), ev.matched_keywords.clone().into());
    o.insert("seen".into(), ev.seen.map(f64::from_bits).into());
    o.insert("source".into(), ev.source.clone().into());
    o.insert("fingerprint".into(), ev.fingerprint.clone().into());
    o.insert("san_count".into(), ev.san_count.into());
    serde_json::to_vec(&o).unwrap().len()
}

/// A batcher with its sink, driven by hand. Time stands still unless it is moved.
struct Rig {
    batcher: Batcher,
    sink: RecordingSink,
    metrics: PipelineMetrics,
    now: Span,
    pauses: Vec<Span>,
    waiting: BatchAction,
}

impl Rig {
    fn new(sink: RecordingSink, flush: Span) -> Rig {
        Rig {
            batcher: Batcher::new(cfg(flush)),
            sink,
            metrics: PipelineMetrics::new(),
            now: Span::from_secs(100),
            pauses: Vec::new(),
            waiting: BatchAction::Receive,
        }
    }

    fn feed(&mut self, input: BatchInput) {
        let mut action = self.batcher.step(input, self.now, &mut self.metrics);
        loop {
            let n = match action {
                BatchAction::Send { n } => n,
                BatchAction::SleepAndSend { pause, n } => {
                    self.pauses.push(pause);
                    n
                }
                other => {
                    self.waiting = other;
                    return;
                }
            };
            let batch: Vec<MatchEvent> = self.batcher.buffered()[..n]
                .iter()
                .map(|q: &Queued| q.event.clone())
                .collect();
            let answer = match self.sink.send_batch(&batch) {
                Ok(()) => BatchInput::Sent,
                Err(_) => BatchInput::Failed,
            };
            action = self.batcher.step(answer, self.now, &mut self.metrics);
        }
    }

    fn send(&mut self, event: MatchEvent) {
        let size = json_len(&event);
        self.feed(BatchInput::Event { event, size });
    }
}

#[test]
fn ten_matches_flush_as_exactly_one_batch_of_ten() {
    let mut rig = Rig::new(RecordingSink::new(), Span::from_secs(30));
    for i in 0..10 {
        assert_eq!(rig.sink.batch_count(), 0);
        rig.send(sample_event(i));
    }
    let batches = rig.sink.batches();
    assert_eq!(batches.len(), 1, "expected a single batch of ten");
    assert_eq!(batches[0].len(), 10);
    assert_eq!(rig.waiting, BatchAction::Receive);
    assert_eq!(rig.metrics.batches_sent, 1);
}

#[test]
fn eleventh_match_starts_the_next_batch() {
    let mut rig = Rig::new(RecordingSink::new(), Span::from_secs(30));
    for i in 0..11 {
        rig.send(sample_event(i));
    }
    assert_eq!(rig.sink.batch_count(), 1);
    rig.feed(BatchInput::Closed);

    let batches = rig.sink.batches();
    assert_eq!(batches[0].len(), 10);
    assert_eq!(batches[1].len(), 1);
    assert_eq!(rig.sink.total_events(), 11);
    assert_eq!(rig.waiting, BatchAction::Finish);
}

#[test]
fn timer_flushes_partial_batch() {
    let mut rig = Rig::new(RecordingSink::new(), Span::from_millis(250));
    for i in 0..3 {
        rig.send(sample_event(i));
        rig.now = Span::from_millis(100_000 + 30 * (i as u64 + 1));
    }
    assert_eq!(rig.sink.batch_count(), 0, "must not flush before the timer");
    assert_eq!(
        rig.waiting,
        BatchAction::ReceiveFor {
            wait: Span::from_millis(190)
        },
        "the deadline counts from the first buffered event"
    );
    rig.feed(BatchInput::Deadline);
    assert_eq!(rig.sink.batch_count(), 1);
    assert_eq!(rig.sink.total_events(), 3);
    assert_eq!(rig.waiting, BatchAction::Receive);
}

#[test]
fn timer_with_empty_buffer_does_not_call_sink() {
    let mut rig = Rig::new(RecordingSink::new(), Span::from_millis(80));
    rig.feed(BatchInput::Deadline);
    assert_eq!(rig.sink.batch_count(), 0);
    assert_eq!(rig.waiting, BatchAction::Receive);
    rig.feed(BatchInput::Closed);
    assert_eq!(rig.sink.batch_count(), 0);
    assert_eq!(rig.waiting, BatchAction::Finish);
}

#[test]
fn sink_error_does_not_silently_drop_the_batch() {
    let mut rig = Rig::new(RecordingSink::new().fail_times(1), Span::from_secs(30));
    for i in 0..10 {
        rig.send(sample_event(i));
    }
    assert_eq!(rig.sink.batch_count(), 1);
    assert_eq!(rig.sink.total_events(), 10);
    let batch = &rig.sink.batches()[0];
    assert_eq!(batch.len(), 10);
    assert_eq!(batch[0].fingerprint.as_deref(), Some("fp-0"));
    assert_eq!(batch[9].fingerprint.as_deref(), Some("fp-9"));
    assert_eq!(rig.metrics.egress_retries, 1);
    assert_eq!(rig.pauses, vec![Span::from_millis(10)]);
}

#[test]
fn pauses_double_from_ten_milliseconds_to_five_seconds() {
    let mut rig = Rig::new(RecordingSink::new().fail_times(11), Span::from_secs(30));
    for i in 0..10 {
        rig.send(sample_event(i));
    }
    let ms: Vec<u128> = rig.pauses.iter().map(|p| p.as_millis()).collect();
    assert_eq!(
        ms,
        vec![10, 20, 40, 80, 160, 320, 640, 1280, 2560, 5000, 5000]
    );
    assert_eq!(rig.sink.total_events(), 10);
}

#[test]
fn oversize_pack_of_ten_is_split_rather_than_sent_as_one_oversize_batch() {
    let mut rig = Rig::new(RecordingSink::new(), Span::from_secs(30));

    // Ten times about 40 KiB is more than the 256 KiB of a batch.
    for i in 0..10 {
        rig.send(huge_event(&format!("big{i}"), 40 * 1024));
    }
    rig.feed(BatchInput::Closed);

    let batches = rig.sink.batches();
    assert!(
        batches.len() >= 2,
        "expected a split across multiple sink calls, got {} batch(es)",
        batches.len()
    );
    for b in batches {
        let bytes: usize = b.iter().map(json_len).sum();
        assert!(
            bytes <= BATCH_MAX_BYTES,
            "batch serialized to {bytes} bytes, over the 256 KiB cap"
        );
        assert!(b.len() <= 10);
        assert!(!b.is_empty());
    }
    assert_eq!(rig.sink.total_events(), 10);
    let order: Vec<String> = batches
        .iter()
        .flatten()
        .map(|e| e.fingerprint.clone().unwrap())
        .collect();
    let want: Vec<String> = (0..10).map(|i| format!("big{i}")).collect();
    assert_eq!(order, want, "nothing is lost or reordered");
}

#[test]
fn an_event_larger_than_a_batch_ends_the_batcher() {
    let mut rig = Rig::new(RecordingSink::new(), Span::from_secs(30));
    rig.feed(BatchInput::Event {
        event: sample_event(0),
        size: BATCH_MAX_BYTES + 1,
    });
    assert_eq!(rig.waiting, BatchAction::TooLarge);
    assert_eq!(rig.sink.batch_count(), 0);

    let mut b = Batcher::new(cfg(Span::from_secs(1)));
    assert_eq!(
        b.enqueue(sample_event(0), BATCH_MAX_BYTES + 1, Span::zero()),
        Err(EgressError::EventTooLarge)
    );
    assert_eq!(b.enqueue(sample_event(0), 100, Span::zero()), Ok(()));
    assert_eq!(b.buffered_bytes(), 100);
    assert_eq!(b.prefix_len(), 1);
    assert!(!b.should_flush_now());
}

#[test]
fn default_batch_config_has_ten_messages_and_five_seconds() {
    let c = BatchConfig::default();
    assert_eq!(c.max_messages, 10);
    assert_eq!(c.max_bytes, 256 * 1024);
    assert_eq!(c.flush_interval, Span::from_secs(5));
}

#[test]
fn stdout_sink_rejects_empty_batch() {
    let _ = StdoutSink::new();
    let err = check_batch(&[]).unwrap_err();
    assert!(err.message().contains("empty"));
    assert_eq!(
        err.message(),
        "egress sink rejected batch: empty batch must never be sent"
    );
}

#[test]
fn recording_sink_rejects_empty_batch_and_fails_as_told() {
    let mut sink = RecordingSink::default().fail_times(1);
    assert!(sink.send_batch(&[]).is_err());
    let batch = [sample_event(1), sample_event(2)];
    assert_eq!(
        sink.send_batch(&batch),
        Err(EgressError::Sink("injected failure".to_string()))
    );
    assert_eq!(sink.send_batch(&batch), Ok(()));
    assert_eq!(sink.batches(), &[batch.to_vec()][..]);
}

#[test]
fn a_queue_answer_with_failures_is_an_error() {
    assert_eq!(check_queue_answer(0, 10), Ok(()));
    let err = check_queue_answer(3, 10).unwrap_err();
    assert_eq!(
        err.message(),
        "SQS error: 3 of 10 SQS batch entries failed"
    );
}
