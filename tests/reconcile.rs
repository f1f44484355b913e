use tag_sync::error::SyncError;
use tag_sync::listing::parse_tag_listing;
use tag_sync::publish::{commit_message, PublishStep};
use tag_sync::reconcile::Reconciler;
use tag_sync::state::{State, TagEntry};
use tag_sync::tag::TagInfo;
use tag_sync::timestamp::Timestamp;

fn tag(name: &str, time: &str) -> TagInfo {
    TagInfo::new(name.to_string(), Timestamp::parse(time).unwrap())
}

fn names(state: &State) -> Vec<String> {
    state.tags().iter().map(|t| t.name.clone()).collect()
}

/// Runs a reconciliation to the end, returning the names of the tags it
/// processed, in order, and the final record.
fn run(state: State, fetched: Vec<TagInfo>) -> (Vec<String>, State) {
    let mut rec = Reconciler::new(state, fetched);
    let mut processed = Vec::new();
    while let Some(t) = rec.next_new_tag() {
        processed.push(t.name.clone());
    }
    (processed, rec.into_state())
}

#[test]
fn first_run_processes_tags_in_order() {
    let listing = "v1.0,2023-01-01T00:00:00Z\nv1.1,2023-02-01T00:00:00Z\n";
    let fetched = parse_tag_listing(listing).unwrap();
    let state = State::load(None).unwrap();
    let mut rec = Reconciler::new(state, fetched);
    let mut messages = Vec::new();
    while let Some(t) = rec.next_new_tag() {
        messages.push(commit_message(&t.name));
    }
    assert_eq!(messages, vec!["Add tag v1.0".to_string(), "Add tag v1.1".to_string()]);
    let state = rec.into_state();
    assert_eq!(names(&state), vec!["v1.0", "v1.1"]);
    assert_eq!(state.tags()[0].commit_time.secs, 1672531200);
    assert_eq!(state.tags()[1].commit_time.secs, 1675209600);
}

#[test]
fn second_run_processes_nothing() {
    let fetched = || vec![tag("a", "2023-01-01T00:00:00Z"), tag("b", "2023-01-02T00:00:00Z")];
    let (first, state) = run(State::new(), fetched());
    assert_eq!(first, vec!["a", "b"]);
    let (second, state) = run(state, fetched());
    assert!(second.is_empty());
    assert_eq!(names(&state), vec!["a", "b"]);
}

#[test]
fn known_names_are_never_removed() {
    let (_, state) = run(State::new(), vec![tag("a", "2023-01-01T00:00:00Z")]);
    let (processed, state) = run(state, vec![tag("b", "2023-01-02T00:00:00Z")]);
    assert_eq!(processed, vec!["b"]);
    assert_eq!(names(&state), vec!["a", "b"]);
}

#[test]
fn resumes_after_failed_persist() {
    let fetched = || {
        vec![
            tag("A", "2023-01-01T00:00:00Z"),
            tag("B", "2023-01-02T00:00:00Z"),
            tag("C", "2023-01-03T00:00:00Z"),
        ]
    };
    let mut rec = Reconciler::new(State::new(), fetched());
    let a = rec.next_new_tag().unwrap();
    assert_eq!(a.name, "A");
    let persisted = rec.state().save();
    let b = rec.next_new_tag().unwrap();
    assert_eq!(b.name, "B");
    // Writing the record with B fails: the run stops, and what was durably
    // recorded holds A alone.
    assert_eq!(PublishStep::first().after(false), Err(SyncError::StatePersistFailed));
    let state = State::load(Some(persisted)).unwrap();
    assert_eq!(names(&state), vec!["A"]);
    let (processed, state) = run(state, fetched());
    assert_eq!(processed, vec!["B", "C"]);
    assert_eq!(names(&state), vec!["A", "B", "C"]);
}

#[test]
fn same_name_is_skipped_whatever_its_time() {
    let fetched = vec![tag("v1", "2023-01-01T00:00:00Z"), tag("v1", "2024-05-05T10:00:00Z")];
    let (processed, state) = run(State::new(), fetched);
    assert_eq!(processed, vec!["v1"]);
    assert_eq!(state.tags().len(), 1);
    assert_eq!(state.tags()[0].commit_time.secs, 1672531200);
    let (processed, _) = run(state, vec![tag("v1", "2025-01-01T00:00:00Z")]);
    assert!(processed.is_empty());
}

#[test]
fn unknown_tags_among_known_ones() {
    let (_, state) = run(State::new(), vec![tag("b", "2023-01-02T00:00:00Z")]);
    let fetched = vec![
        tag("a", "2023-01-01T00:00:00Z"),
        tag("b", "2023-01-02T00:00:00Z"),
        tag("c", "2023-01-03T00:00:00Z"),
    ];
    let (processed, state) = run(state, fetched);
    assert_eq!(processed, vec!["a", "c"]);
    assert_eq!(names(&state), vec!["b", "a", "c"]);
}

#[test]
fn empty_listing_processes_nothing() {
    let fetched = parse_tag_listing("").unwrap();
    assert!(fetched.is_empty());
    let (processed, state) = run(State::new(), fetched);
    assert!(processed.is_empty());
    assert!(state.tags().is_empty());
}

#[test]
fn publish_steps_run_in_order() {
    let first = PublishStep::first();
    assert_eq!(first, PublishStep::Persist);
    assert_eq!(first.after(true), Ok(Some(PublishStep::Stage)));
    assert_eq!(PublishStep::Stage.after(true), Ok(Some(PublishStep::Commit)));
    assert_eq!(PublishStep::Commit.after(true), Ok(Some(PublishStep::Push)));
    assert_eq!(PublishStep::Push.after(true), Ok(None));
}

#[test]
fn propagation_failures_are_told_apart() {
    assert_eq!(PublishStep::Persist.after(false), Err(SyncError::StatePersistFailed));
    assert_eq!(PublishStep::Stage.after(false), Err(SyncError::PropagationFailed));
    assert_eq!(PublishStep::Commit.after(false), Err(SyncError::PropagationFailed));
    assert_eq!(PublishStep::Push.after(false), Err(SyncError::PropagationFailed));
    assert_ne!(
        SyncError::PropagationFailed.message(),
        SyncError::StatePersistFailed.message()
    );
}

#[test]
fn commit_message_names_the_tag() {
    assert_eq!(commit_message("v2.3.4"), "Add tag v2.3.4");
    assert_eq!(commit_message(""), "Add tag ");
}

#[test]
fn save_then_load_gives_the_record_back() {
    let fetched = vec![
        tag("z", "2023-03-04T05:06:07.25+02:00"),
        tag("a", "1999-12-31T23:59:59.000000001Z"),
    ];
    let (_, state) = run(State::new(), fetched);
    let entries = state.save();
    assert_eq!(entries.len(), 2);
    assert_eq!(entries[0].name, "z");
    assert_eq!(entries[0].commit_time, "2023-03-04T03:06:07.250+00:00");
    assert_eq!(entries[1].commit_time, "1999-12-31T23:59:59.000000001+00:00");
    let loaded = State::load(Some(entries)).unwrap();
    assert_eq!(names(&loaded), vec!["z", "a"]);
    for (x, y) in loaded.tags().iter().zip(state.tags().iter()) {
        assert_eq!(x.commit_time, y.commit_time);
    }
}

#[test]
fn load_of_nothing_is_empty() {
    let state = State::load(None).unwrap();
    assert!(state.tags().is_empty());
    let state = State::load(Some(Vec::new())).unwrap();
    assert!(state.tags().is_empty());
}

fn entry(name: &str, time: &str) -> TagEntry {
    TagEntry { name: name.to_string(), commit_time: time.to_string() }
}

#[test]
fn load_rejects_bad_time() {
    let entries = vec![entry("a", "2023-01-01T00:00:00Z"), entry("b", "yesterday")];
    assert_eq!(State::load(Some(entries)).unwrap_err(), SyncError::StateCorrupt);
}

#[test]
fn load_rejects_repeated_name() {
    let entries = vec![entry("a", "2023-01-01T00:00:00Z"), entry("a", "2023-01-02T00:00:00Z")];
    assert_eq!(State::load(Some(entries)).unwrap_err(), SyncError::StateCorrupt);
}
