use revercce::cache::{
    resolve, undecodable, Action, BatchError, CacheEntry, Coordinator, Event, FetchOutcome,
    MemoryStore, Origin, Phase, RateLimiter, StoreRead, FETCH_DELAY_SECONDS,
};

fn key(text: &str) -> String {
    text.to_string()
}

fn body(text: &str) -> FetchOutcome {
    FetchOutcome::Body(text.as_bytes().to_vec())
}

fn entry(k: &str, payload: &str, origin: Origin) -> CacheEntry {
    CacheEntry { key: key(k), payload: payload.as_bytes().to_vec(), origin }
}

#[test]
fn slot_with_bytes_is_served_without_a_fetch() {
    let mut c = Coordinator::new(key("Art-1"));
    assert_eq!(c.current_phase(), Phase::AwaitingRead);
    let action = c.step(Event::SlotRead(StoreRead::Present(b"{\"a\":1}".to_vec())));
    assert_eq!(action, Some(Action::Deliver(entry("Art-1", "{\"a\":1}", Origin::Cached))));
    assert_eq!(c.current_phase(), Phase::Finished);
}

#[test]
fn absent_slot_calls_for_a_fetch() {
    let mut c = Coordinator::new(key("k"));
    assert_eq!(c.step(Event::SlotRead(StoreRead::Absent)), Some(Action::Fetch));
    assert_eq!(c.current_phase(), Phase::AwaitingFetch);
}

#[test]
fn empty_slot_counts_as_absent() {
    let mut c = Coordinator::new(key("k"));
    assert_eq!(c.step(Event::SlotRead(StoreRead::Present(vec![]))), Some(Action::Fetch));
    assert_eq!(c.current_phase(), Phase::AwaitingFetch);
}

#[test]
fn fetched_body_is_stored_and_delivered_as_fresh() {
    let mut c = Coordinator::new(key("k"));
    c.step(Event::SlotRead(StoreRead::Absent));
    let action = c.step(Event::Fetched(body("payload")));
    assert_eq!(action, Some(Action::StoreAndDeliver(entry("k", "payload", Origin::Fresh))));
    assert_eq!(c.current_phase(), Phase::Finished);
}

#[test]
fn payload_is_kept_byte_for_byte() {
    let bytes: Vec<u8> = vec![0, 255, 10, 13, 0xc3, 0x28, 0, 1];
    let mut c = Coordinator::new(key("k"));
    c.step(Event::SlotRead(StoreRead::Absent));
    let action = c.step(Event::Fetched(FetchOutcome::Body(bytes.clone())));
    assert_eq!(
        action,
        Some(Action::StoreAndDeliver(CacheEntry {
            key: key("k"),
            payload: bytes.clone(),
            origin: Origin::Fresh
        }))
    );
    let mut again = Coordinator::new(key("k"));
    assert_eq!(
        again.step(Event::SlotRead(StoreRead::Present(bytes.clone()))),
        Some(Action::Deliver(CacheEntry { key: key("k"), payload: bytes, origin: Origin::Cached }))
    );
}

#[test]
fn failed_fetch_is_a_transport_error() {
    let mut c = Coordinator::new(key("k"));
    c.step(Event::SlotRead(StoreRead::Present(vec![])));
    let action = c.step(Event::Fetched(FetchOutcome::Failed("connection refused".to_string())));
    assert_eq!(
        action,
        Some(Action::Fail(BatchError::Transport("connection refused".to_string())))
    );
    assert_eq!(c.current_phase(), Phase::Finished);
}

#[test]
fn events_out_of_turn_change_nothing() {
    let mut c = Coordinator::new(key("k"));
    assert_eq!(c.step(Event::Fetched(body("early"))), None);
    assert_eq!(c.current_phase(), Phase::AwaitingRead);
    c.step(Event::SlotRead(StoreRead::Absent));
    assert_eq!(c.step(Event::SlotRead(StoreRead::Present(b"late".to_vec()))), None);
    assert_eq!(c.current_phase(), Phase::AwaitingFetch);
    c.step(Event::Fetched(body("x")));
    assert_eq!(c.step(Event::Fetched(body("y"))), None);
    assert_eq!(c.step(Event::SlotRead(StoreRead::Absent)), None);
    assert_eq!(c.current_phase(), Phase::Finished);
}

#[test]
fn cache_round_trip_is_fresh_then_cached() {
    let mut store = MemoryStore::new();
    let first = resolve(&mut store, &key("Ag-1-2-3"), body("{\"reports\":[]}"));
    assert_eq!(first, Ok(entry("Ag-1-2-3", "{\"reports\":[]}", Origin::Fresh)));
    let second = resolve(&mut store, &key("Ag-1-2-3"), body("something else by now"));
    assert_eq!(second, Ok(entry("Ag-1-2-3", "{\"reports\":[]}", Origin::Cached)));
    let third = resolve(&mut store, &key("Ag-1-2-3"), FetchOutcome::Failed("offline".to_string()));
    assert_eq!(third, Ok(entry("Ag-1-2-3", "{\"reports\":[]}", Origin::Cached)));
    assert_eq!(first.unwrap().payload, second.unwrap().payload);
}

#[test]
fn empty_placeholder_heals() {
    let mut store = MemoryStore::new();
    store.write(key("k"), vec![]);
    assert_eq!(store.read(&key("k")), StoreRead::Present(vec![]));
    let outcome = resolve(&mut store, &key("k"), body("healed"));
    assert_eq!(outcome, Ok(entry("k", "healed", Origin::Fresh)));
    assert_eq!(store.read(&key("k")), StoreRead::Present(b"healed".to_vec()));
}

#[test]
fn failed_fetch_leaves_the_store_alone() {
    let mut store = MemoryStore::new();
    let outcome = resolve(&mut store, &key("k"), FetchOutcome::Failed("timed out".to_string()));
    assert_eq!(outcome, Err(BatchError::Transport("timed out".to_string())));
    assert_eq!(store.read(&key("k")), StoreRead::Absent);
    store.write(key("e"), vec![]);
    let outcome = resolve(&mut store, &key("e"), FetchOutcome::Failed("timed out".to_string()));
    assert_eq!(outcome, Err(BatchError::Transport("timed out".to_string())));
    assert_eq!(store.read(&key("e")), StoreRead::Present(vec![]));
    let retry = resolve(&mut store, &key("k"), body("now it works"));
    assert_eq!(retry, Ok(entry("k", "now it works", Origin::Fresh)));
}

#[test]
fn empty_body_is_stored_and_fetched_again_next_time() {
    let mut store = MemoryStore::new();
    assert_eq!(resolve(&mut store, &key("k"), body("")), Ok(entry("k", "", Origin::Fresh)));
    assert_eq!(store.read(&key("k")), StoreRead::Present(vec![]));
    assert_eq!(resolve(&mut store, &key("k"), body("full")), Ok(entry("k", "full", Origin::Fresh)));
    assert_eq!(resolve(&mut store, &key("k"), body("")), Ok(entry("k", "full", Origin::Cached)));
}

#[test]
fn resolution_touches_only_its_own_slot() {
    let mut store = MemoryStore::new();
    store.write(key("a"), b"A".to_vec());
    resolve(&mut store, &key("b"), body("B")).unwrap();
    assert_eq!(store.read(&key("a")), StoreRead::Present(b"A".to_vec()));
    assert_eq!(store.read(&key("b")), StoreRead::Present(b"B".to_vec()));
    assert_eq!(store.read(&key("c")), StoreRead::Absent);
    assert_eq!(store.read(&key("")), StoreRead::Absent);
}

#[test]
fn memory_store_reads_the_latest_write() {
    let mut store = MemoryStore::new();
    assert_eq!(store.read(&key("k")), StoreRead::Absent);
    store.write(key("k"), b"one".to_vec());
    store.write(key("other"), b"x".to_vec());
    store.write(key("k"), b"two".to_vec());
    assert_eq!(store.read(&key("k")), StoreRead::Present(b"two".to_vec()));
    assert_eq!(store.read(&key("other")), StoreRead::Present(b"x".to_vec()));
}

#[test]
fn delay_follows_fresh_entries_only() {
    assert_eq!(FETCH_DELAY_SECONDS, 8);
    let limiter = RateLimiter::standard();
    assert_eq!(limiter.wait_if_fresh(Origin::Fresh), 8);
    assert_eq!(limiter.wait_if_fresh(Origin::Cached), 0);
    let none = RateLimiter::none();
    assert_eq!(none.wait_if_fresh(Origin::Fresh), 0);
    assert_eq!(none.wait_if_fresh(Origin::Cached), 0);
    let custom = RateLimiter { delay_seconds: u64::MAX };
    assert_eq!(custom.wait_if_fresh(Origin::Fresh), u64::MAX);
    assert_eq!(custom.wait_if_fresh(Origin::Cached), 0);
}

#[test]
fn undecodable_bytes_are_named_by_their_origin() {
    assert_eq!(
        undecodable(Origin::Cached, "{oops".to_string()),
        BatchError::MalformedCache("{oops".to_string())
    );
    assert_eq!(
        undecodable(Origin::Fresh, "<html>".to_string()),
        BatchError::Decode("<html>".to_string())
    );
}
