use std::mem::size_of;
use std::sync::Arc;

use ct_firehose_filter::pipeline::{
    handle_frame, try_offer, FrameAction, FrameLoop, LoopAction, LoopInput, SendOutcome,
    WaitOutcome,
};
use ct_firehose_filter::{
    DomainWatchlist, FrameMeta, HotWatchlist, MatchEnqueue, MatchEvent, ParseError,
    PipelineMetrics, TryProcessResult,
};
use tokio::sync::mpsc;

fn strs(list: &[&str]) -> Vec<String> {
    list.iter().map(|s| s.to_string()).collect()
}

fn hot(list: &[&str]) -> HotWatchlist {
    HotWatchlist::new(DomainWatchlist::new(&strs(list)))
}

fn frame(names: &[&str]) -> Vec<u8> {
    let quoted: Vec<String> = names.iter().map(|n| format!("\"{n}\"")).collect();
    format!(
        r#"{{"message_type":"certificate_update","data":{{"leaf_cert":{{"all_domains":[{}]}}}}}}"#,
        quoted.join(",")
    )
    .into_bytes()
}

const HEARTBEAT: &[u8] = br#"{"message_type":"heartbeat","timestamp":1.0}"#;

#[test]
fn match_event_is_a_small_header_not_an_inline_json_blob() {
    assert!(
        size_of::<MatchEvent>() < 256,
        "MatchEvent should be a handful of Vec/Option headers (got {} bytes); \
         do not embed raw JSON inline",
        size_of::<MatchEvent>()
    );
}

#[test]
fn channel_item_type_is_match_event() {
    fn assert_sender_item(_: &mpsc::Sender<MatchEvent>) {}
    let (tx, _rx) = mpsc::channel::<MatchEvent>(1);
    assert_sender_item(&tx);
}

#[test]
fn unmatched_frames_never_occupy_a_channel_slot() {
    let (tx, mut rx) = mpsc::channel::<MatchEvent>(2);
    let stage = MatchEnqueue::new(Arc::new(hot(&["hit.com"])), tx);

    assert_eq!(
        stage.try_process_domains(&strs(&["a.hit.com"]), FrameMeta::default()),
        TryProcessResult::Enqueued
    );
    assert_eq!(
        stage.try_process_domains(&strs(&["a.hit.com"]), FrameMeta::default()),
        TryProcessResult::Enqueued
    );

    assert_eq!(
        stage.try_process_domains(&strs(&["miss.example.com"]), FrameMeta::default()),
        TryProcessResult::NoMatch,
        "a non-match must not report ChannelFull; it must not touch the channel"
    );

    assert_eq!(
        stage.try_process_domains(&strs(&["a.hit.com"]), FrameMeta::default()),
        TryProcessResult::ChannelFull,
        "channel is still full of the two matches"
    );

    let first = rx.try_recv().expect("queued match");
    assert_eq!(first.matched_domains, vec!["a.hit.com"]);
}

#[test]
fn bounded_capacity_applies_backpressure_instead_of_growing() {
    let (tx, rx) = mpsc::channel::<MatchEvent>(2);
    let stage = MatchEnqueue::new(Arc::new(hot(&["hit.com"])), tx);

    assert_eq!(
        stage.try_process_domains(&strs(&["a.hit.com"]), FrameMeta::default()),
        TryProcessResult::Enqueued
    );
    assert_eq!(
        stage.try_process_domains(&strs(&["b.hit.com"]), FrameMeta::default()),
        TryProcessResult::Enqueued
    );
    assert_eq!(
        stage.try_process_domains(&strs(&["c.hit.com"]), FrameMeta::default()),
        TryProcessResult::ChannelFull
    );
    drop(rx);
    assert_eq!(
        stage.try_process_domains(&strs(&["d.hit.com"]), FrameMeta::default()),
        TryProcessResult::ChannelClosed
    );
}

#[test]
fn try_process_frame_parses_then_filters_without_enqueuing_noise() {
    let (tx, mut rx) = mpsc::channel::<MatchEvent>(8);
    let stage = MatchEnqueue::new(Arc::new(hot(&["acquirer.com", "target.com"])), tx);

    let noise = frame(&["cdn.unrelated.net"]);
    let ma = frame(&["cdn.unrelated.net", "api-integration.acquirer.target.com"]);

    assert_eq!(
        stage.try_process_frame(HEARTBEAT).unwrap(),
        TryProcessResult::NoMatch
    );
    assert_eq!(
        stage.try_process_frame(&noise).unwrap(),
        TryProcessResult::NoMatch
    );
    assert_eq!(
        stage.try_process_frame(&ma).unwrap(),
        TryProcessResult::Enqueued
    );
    assert!(stage.try_process_frame(b"{").is_err());

    let ev = rx.try_recv().unwrap();
    assert!(ev
        .matched_domains
        .iter()
        .any(|d| d == "api-integration.acquirer.target.com"));
    assert!(rx.try_recv().is_err(), "noise/heartbeat must not be queued");
}

#[test]
fn every_frame_is_counted_once() {
    let list = HotWatchlist::new(DomainWatchlist::new_with_suppress(
        &strs(&["hit.com", "hub.com"]),
        &strs(&["hub.com"]),
    ));
    let mut m = PipelineMetrics::new();
    assert_eq!(
        handle_frame(&list, b"nonsense", &mut m),
        FrameAction::Malformed(ParseError::Json("expected ident at line 1 column 2".to_string()))
    );
    assert_eq!(handle_frame(&list, HEARTBEAT, &mut m), FrameAction::Drop);
    assert_eq!(
        handle_frame(&list, &frame(&["x.org"]), &mut m),
        FrameAction::Drop
    );
    assert_eq!(
        handle_frame(&list, &frame(&["a.hub.com"]), &mut m),
        FrameAction::Drop
    );
    match handle_frame(&list, &frame(&["a.hub.com", "a.hit.com", "y.org"]), &mut m) {
        FrameAction::Deliver { event, domains } => {
            assert_eq!(event.matched_domains, vec!["a.hit.com"]);
            assert_eq!(event.matched_keywords, vec!["hit.com"]);
            assert_eq!(event.san_count, 3);
            assert_eq!(domains, vec!["a.hub.com", "a.hit.com", "y.org"]);
        }
        other => panic!("{other:?}"),
    }
    let s = m.snapshot();
    assert_eq!(s.frames_seen, 5);
    assert_eq!(s.frames_malformed, 1);
    assert_eq!(s.frames_ignored, 2);
    assert_eq!(s.matches_suppressed, 1);
    assert_eq!(s.matches_enqueued, 0);
}

#[test]
fn a_full_channel_keeps_the_event_and_takes_no_frame() {
    let list = hot(&["hit.com"]);
    let (tx, mut rx) = mpsc::channel::<MatchEvent>(1);
    let mut m = PipelineMetrics::new();
    let mut frames = FrameLoop::new();
    let mut sent = Vec::new();

    for name in ["a.hit.com", "b.hit.com"] {
        let input = LoopInput::Frame(frame(&[name, "x.org"]));
        match frames.step(&list, input, &mut m) {
            LoopAction::Archive { domains } => {
                assert_eq!(domains, strs(&[name, "x.org"]));
                assert_eq!(frames.held().unwrap().matched_domains, strs(&[name]));
            }
            other => panic!("{other:?}"),
        }
        let event = match frames.step(&list, LoopInput::Archived, &mut m) {
            LoopAction::Offer(event) => event,
            other => panic!("{other:?}"),
        };
        sent.push(event.clone());
        let answer = try_offer(&tx, event.clone());
        match frames.step(&list, LoopInput::Offered(answer), &mut m) {
            LoopAction::Receive => assert_eq!(name, "a.hit.com"),
            LoopAction::Wait(kept) => {
                assert_eq!(name, "b.hit.com");
                assert_eq!(kept, event);
                assert_eq!(rx.try_recv().unwrap(), sent[0]);
                tx.try_send(kept).unwrap();
                assert_eq!(
                    frames.step(&list, LoopInput::Waited(WaitOutcome::Sent), &mut m),
                    LoopAction::Receive
                );
            }
            other => panic!("{other:?}"),
        }
    }
    assert_eq!(rx.try_recv().unwrap(), sent[1]);
    assert_eq!(m.matches_enqueued, 2);
    assert_eq!(m.channel_full, 1);
    assert_eq!(m.frames_seen, 2);
    assert_eq!(
        frames.step(&list, LoopInput::Ended, &mut m),
        LoopAction::Stop
    );
}

#[test]
fn the_loop_stops_when_told_or_when_nobody_takes_matches() {
    let list = hot(&["hit.com"]);
    let mut m = PipelineMetrics::new();
    let mut frames = FrameLoop::new();
    assert_eq!(
        frames.step(&list, LoopInput::Frame(b"{".to_vec()), &mut m),
        LoopAction::Report(ParseError::Json(
            "EOF while parsing an object at line 1 column 1".to_string()
        ))
    );
    assert_eq!(
        frames.step(&list, LoopInput::Frame(HEARTBEAT.to_vec()), &mut m),
        LoopAction::Receive
    );
    assert_eq!(
        frames.step(&list, LoopInput::Cancelled, &mut m),
        LoopAction::Stop
    );

    let to_offer = |m: &mut PipelineMetrics| {
        let mut frames = FrameLoop::new();
        frames.step(&list, LoopInput::Frame(frame(&["a.hit.com"])), m);
        match frames.step(&list, LoopInput::Archived, m) {
            LoopAction::Offer(event) => (frames, event),
            other => panic!("{other:?}"),
        }
    };
    let (tx, rx) = mpsc::channel::<MatchEvent>(1);
    drop(rx);
    let (mut frames, event) = to_offer(&mut m);
    let answer = try_offer(&tx, event.clone());
    assert_eq!(answer, SendOutcome::Closed(event));
    assert_eq!(
        frames.step(&list, LoopInput::Offered(answer), &mut m),
        LoopAction::Stop
    );
    for outcome in [WaitOutcome::Cancelled, WaitOutcome::Closed] {
        let (mut frames, event) = to_offer(&mut m);
        frames.step(
            &list,
            LoopInput::Offered(SendOutcome::Full(event)),
            &mut m,
        );
        assert_eq!(
            frames.step(&list, LoopInput::Waited(outcome), &mut m),
            LoopAction::Stop
        );
    }
    assert_eq!(m.matches_enqueued, 0);
    assert_eq!(m.channel_full, 2);
}

#[test]
fn counters_do_not_depend_on_the_order_of_frames() {
    let list = hot(&["hit.com"]);
    let (a, b) = (frame(&["a.hit.com"]), b"?".to_vec());
    let mut m = PipelineMetrics::new();
    handle_frame(&list, &a, &mut m);
    handle_frame(&list, &b, &mut m);
    let mut n = PipelineMetrics::new();
    handle_frame(&list, &b, &mut n);
    handle_frame(&list, &a, &mut n);
    assert_eq!(m, n);
}

#[test]
fn a_running_filter_takes_a_new_list_and_keeps_its_channel() {
    let (tx, mut rx) = mpsc::channel::<MatchEvent>(2);
    let mut stage = MatchEnqueue::new(Arc::new(hot(&["old.com"])), tx);
    assert_eq!(
        stage.try_process_domains(&strs(&["a.old.com"]), FrameMeta::default()),
        TryProcessResult::Enqueued
    );
    stage.swap(DomainWatchlist::new(&strs(&["new.com"])));
    assert_eq!(
        stage.try_process_domains(&strs(&["a.old.com"]), FrameMeta::default()),
        TryProcessResult::NoMatch
    );
    assert_eq!(
        stage.try_process_domains(&strs(&["a.new.com"]), FrameMeta::default()),
        TryProcessResult::Enqueued
    );
    assert_eq!(rx.try_recv().unwrap().matched_keywords, vec!["old.com"]);
    assert_eq!(rx.try_recv().unwrap().matched_keywords, vec!["new.com"]);
}
