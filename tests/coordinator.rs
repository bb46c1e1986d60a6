use series_renamer::{
    ChannelPoll, Episode, FetchCoordinator, FetchFailure, FetchMessage, FetchResult,
};

fn fetched() -> FetchResult {
    FetchResult::Fetched { episodes: vec![Episode::new("Pilot", "1", "tt1")], files: vec![] }
}

#[test]
fn one_fetch_at_a_time() {
    let mut c = FetchCoordinator::new();
    assert!(!c.is_fetching());
    let t = c.start().expect("first start");
    assert!(c.is_fetching());
    assert!(c.start().is_none());
    assert_eq!(t.generation, 1);
}

#[test]
fn poll_returns_result_once_sent() {
    let mut c = FetchCoordinator::new();
    let t = c.start().unwrap();
    assert!(c.poll().is_none());
    assert!(c.is_fetching());
    t.sender.send(FetchMessage { generation: t.generation, result: fetched() }).unwrap();
    assert_eq!(c.poll(), Some(fetched()));
    assert!(!c.is_fetching());
    assert!(c.poll().is_none());
}

#[test]
fn result_sent_before_sender_left_is_kept() {
    let mut c = FetchCoordinator::new();
    let t = c.start().unwrap();
    let sent = t.sender.send(FetchMessage {
        generation: t.generation,
        result: FetchResult::Failed(FetchFailure::NoIdentifier),
    });
    assert!(sent.is_ok());
    drop(t);
    assert_eq!(c.poll(), Some(FetchResult::Failed(FetchFailure::NoIdentifier)));
}

#[test]
fn worker_gone_without_result_is_reported() {
    let mut c = FetchCoordinator::new();
    let t = c.start().unwrap();
    drop(t);
    assert_eq!(c.poll(), Some(FetchResult::Failed(FetchFailure::ChannelDisconnected)));
    assert!(!c.is_fetching());
}

#[test]
fn stale_generation_is_dropped() {
    let mut c = FetchCoordinator::new();
    let _t = c.start().unwrap();
    let stale = ChannelPoll::Received(FetchMessage { generation: 99, result: fetched() });
    assert!(c.receive(stale).is_none());
    assert!(c.is_fetching());
    assert!(c.receive(ChannelPoll::Empty).is_none());
    assert!(c.is_fetching());
    let current = ChannelPoll::Received(FetchMessage { generation: 1, result: fetched() });
    assert_eq!(c.receive(current), Some(fetched()));
    assert!(!c.is_fetching());
}

#[test]
fn nothing_is_taken_when_idle() {
    let mut c = FetchCoordinator::new();
    let m = ChannelPoll::Received(FetchMessage { generation: 0, result: fetched() });
    assert!(c.receive(m).is_none());
    assert!(c.poll().is_none());
    let t = c.start().unwrap();
    assert_eq!(t.generation, 1);
    let _ = c.receive(ChannelPoll::Disconnected);
    let t2 = c.start().unwrap();
    assert_eq!(t2.generation, 2);
}
