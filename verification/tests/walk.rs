use auction_backfill::database::Config;
use auction_backfill::walk::{
    check_batch, start, step, ResumeQuery, WalkAction, WalkEnd, WalkEvent, WalkSettings,
    WalkState, Workflow,
};

fn settings(batch_size: i64) -> WalkSettings {
    WalkSettings::new(batch_size, 50).unwrap()
}

/// Runs a walk against a table held in memory: `rows` are the ids of the
/// competitions, `undecodable` those among them that make a fetch fail. Gives
/// the ids that were processed, in order, the fetches that were made and how
/// the walk ended.
fn drive(
    settings: &WalkSettings,
    resume_point: Option<i64>,
    rows: &[i64],
    undecodable: &[i64],
) -> (Vec<i64>, Vec<i64>, WalkEnd) {
    let mut processed = Vec::new();
    let mut fetches = Vec::new();
    let mut batch: Vec<i64> = Vec::new();
    let (mut state, mut action) = start(Workflow::PopulateAuctions);
    for _ in 0..10_000 {
        let event = match action {
            WalkAction::Resolve(_) => WalkEvent::ResumePoint(resume_point),
            WalkAction::Fetch { below, limit } => {
                fetches.push(below);
                let mut ids: Vec<i64> = rows.iter().copied().filter(|id| *id < below).collect();
                ids.sort_by(|a, b| b.cmp(a));
                ids.truncate(limit as usize);
                if ids.iter().any(|id| undecodable.contains(id)) {
                    WalkEvent::Undecodable
                } else {
                    batch = ids.clone();
                    WalkEvent::Batch(ids)
                }
            }
            WalkAction::Process => {
                processed.extend(batch.iter().copied());
                WalkEvent::Processed
            }
            WalkAction::Commit { pause_millis } => {
                assert_eq!(pause_millis, settings.pause_millis);
                WalkEvent::Committed
            }
            WalkAction::Stop(end) => {
                assert_eq!(state, WalkState::Done(end));
                return (processed, fetches, end);
            }
        };
        let next = step(settings, state, &event);
        state = next.0;
        action = next.1;
    }
    panic!("the walk did not end");
}

#[test]
fn each_walk_opens_with_its_own_resume_query() {
    assert_eq!(
        start(Workflow::PopulateAuctions),
        (WalkState::Resolving, WalkAction::Resolve(ResumeQuery::LowestNormalizedAuction))
    );
    assert_eq!(
        start(Workflow::ConvertFees),
        (WalkState::Resolving, WalkAction::Resolve(ResumeQuery::HighestCompetition))
    );
}

#[test]
fn without_a_resume_point_there_is_nothing_to_process() {
    let (processed, fetches, end) = drive(&settings(1), None, &[100, 99], &[]);
    assert_eq!(processed, Vec::<i64>::new());
    assert_eq!(fetches, Vec::<i64>::new());
    assert_eq!(end, WalkEnd::NothingToProcess);
}

#[test]
fn one_row_below_the_resume_point_is_processed_once() {
    // The table of competitions holds 100 and 101; 101 was normalized before.
    let (processed, fetches, end) = drive(&settings(1), Some(101), &[101, 100], &[]);
    assert_eq!(processed, vec![100]);
    assert_eq!(fetches, vec![101, 100]);
    assert_eq!(end, WalkEnd::Exhausted);
    // A second walk resumes at the lowest id that is now normalized and finds nothing.
    let (processed, fetches, end) = drive(&settings(1), Some(100), &[101, 100], &[]);
    assert_eq!(processed, Vec::<i64>::new());
    assert_eq!(fetches, vec![100]);
    assert_eq!(end, WalkEnd::Exhausted);
}

#[test]
fn the_walk_goes_down_in_batches() {
    let rows = [10, 9, 7, 6, 5, 2];
    let (processed, fetches, end) = drive(&settings(4), Some(10), &rows, &[]);
    assert_eq!(processed, vec![9, 7, 6, 5, 2]);
    assert_eq!(fetches, vec![10, 5, 2]);
    assert_eq!(end, WalkEnd::Exhausted);
}

#[test]
fn a_resumed_walk_does_what_the_unbroken_walk_had_left() {
    let rows = [10, 9, 7, 6, 5, 2];
    let (whole, _, _) = drive(&settings(2), Some(11), &rows, &[]);
    assert_eq!(whole, vec![10, 9, 7, 6, 5, 2]);
    // Stopped after the batch that ended with 7 was committed.
    let (rest, fetches, end) = drive(&settings(2), Some(7), &rows, &[]);
    assert_eq!(rest, vec![6, 5, 2]);
    assert!(fetches.iter().all(|below| *below <= 7));
    assert_eq!(end, WalkEnd::Exhausted);
}

#[test]
fn a_row_that_cannot_be_deserialized_is_passed_over_alone() {
    let (processed, fetches, end) = drive(&settings(1), Some(6), &[5, 4, 3], &[4]);
    assert_eq!(processed, vec![5, 3]);
    assert_eq!(fetches, vec![6, 5, 4, 3]);
    assert_eq!(end, WalkEnd::Exhausted);
}

#[test]
fn skipping_moves_the_cursor_by_exactly_one() {
    let s = settings(3);
    assert_eq!(
        step(&s, WalkState::Fetching { cursor: 42 }, &WalkEvent::Undecodable),
        (WalkState::Fetching { cursor: 41 }, WalkAction::Fetch { below: 41, limit: 3 })
    );
    assert_eq!(
        step(&s, WalkState::Fetching { cursor: i64::MIN + 1 }, &WalkEvent::Undecodable),
        (
            WalkState::Fetching { cursor: i64::MIN },
            WalkAction::Fetch { below: i64::MIN, limit: 3 }
        )
    );
    assert_eq!(
        step(&s, WalkState::Fetching { cursor: i64::MIN }, &WalkEvent::Undecodable),
        (WalkState::Done(WalkEnd::Exhausted), WalkAction::Stop(WalkEnd::Exhausted))
    );
}

#[test]
fn a_round_is_fetch_process_commit() {
    let s = settings(3);
    let fetching = WalkState::Fetching { cursor: 50 };
    let (state, action) = step(&s, fetching, &WalkEvent::Batch(vec![49, 47, 40]));
    assert_eq!(state, WalkState::Processing { cursor: 50, last_id: 40 });
    assert_eq!(action, WalkAction::Process);
    let (state, action) = step(&s, state, &WalkEvent::Processed);
    assert_eq!(state, WalkState::Committing { last_id: 40 });
    assert_eq!(action, WalkAction::Commit { pause_millis: 50 });
    let (state, action) = step(&s, state, &WalkEvent::Committed);
    assert_eq!(state, WalkState::Fetching { cursor: 40 });
    assert_eq!(action, WalkAction::Fetch { below: 40, limit: 3 });
    let (state, action) = step(&s, state, &WalkEvent::Batch(vec![]));
    assert_eq!(state, WalkState::Done(WalkEnd::Exhausted));
    assert_eq!(action, WalkAction::Stop(WalkEnd::Exhausted));
}

#[test]
fn failures_and_answers_out_of_turn_end_the_walk() {
    let s = settings(2);
    let failed = (WalkState::Done(WalkEnd::Failed), WalkAction::Stop(WalkEnd::Failed));
    let states = [
        WalkState::Resolving,
        WalkState::Fetching { cursor: 5 },
        WalkState::Processing { cursor: 5, last_id: 3 },
        WalkState::Committing { last_id: 3 },
    ];
    for state in states {
        assert_eq!(step(&s, state, &WalkEvent::Failure), failed);
    }
    assert_eq!(step(&s, WalkState::Resolving, &WalkEvent::Committed), failed);
    assert_eq!(step(&s, WalkState::Resolving, &WalkEvent::Batch(vec![])), failed);
    assert_eq!(step(&s, WalkState::Fetching { cursor: 5 }, &WalkEvent::Processed), failed);
    assert_eq!(
        step(&s, WalkState::Fetching { cursor: 5 }, &WalkEvent::ResumePoint(Some(1))),
        failed
    );
    assert_eq!(
        step(&s, WalkState::Processing { cursor: 5, last_id: 3 }, &WalkEvent::Committed),
        failed
    );
    assert_eq!(step(&s, WalkState::Committing { last_id: 3 }, &WalkEvent::Processed), failed);
    // Once over, a walk stays over.
    assert_eq!(
        step(&s, WalkState::Done(WalkEnd::Exhausted), &WalkEvent::Committed),
        (WalkState::Done(WalkEnd::Exhausted), WalkAction::Stop(WalkEnd::Exhausted))
    );
    assert_eq!(step(&s, WalkState::Done(WalkEnd::Failed), &WalkEvent::Batch(vec![1])), failed);
}

#[test]
fn a_batch_that_does_not_answer_the_fetch_ends_the_walk() {
    let s = settings(2);
    let failed = (WalkState::Done(WalkEnd::Failed), WalkAction::Stop(WalkEnd::Failed));
    let fetching = WalkState::Fetching { cursor: 10 };
    assert_eq!(step(&s, fetching, &WalkEvent::Batch(vec![10])), failed);
    assert_eq!(step(&s, fetching, &WalkEvent::Batch(vec![8, 9])), failed);
    assert_eq!(step(&s, fetching, &WalkEvent::Batch(vec![9, 9])), failed);
    assert_eq!(step(&s, fetching, &WalkEvent::Batch(vec![9, 8, 7])), failed);
    assert!(check_batch(&vec![9, 8], 10, 2));
    assert!(check_batch(&vec![], 10, 2));
    assert!(check_batch(&vec![i64::MIN], i64::MIN + 1, 1));
    assert!(!check_batch(&vec![9], 10, 0));
    assert!(!check_batch(&vec![], 10, -1));
    assert!(!check_batch(&vec![i64::MIN], i64::MIN, 5));
}

#[test]
fn settings_need_a_positive_batch_size() {
    assert_eq!(WalkSettings::new(0, 50), None);
    assert_eq!(WalkSettings::new(-1, 50), None);
    assert_eq!(WalkSettings::new(7, 0), Some(WalkSettings { batch_size: 7, pause_millis: 0 }));
    assert_eq!(WalkSettings::default(), WalkSettings { batch_size: 1, pause_millis: 50 });
    assert_eq!(Config::new(0), None);
    assert_eq!(Config::new(3), Some(Config { insert_batch_size: 3 }));
    assert_eq!(Config::with_defaults().insert_batch_size, 500);
}

#[test]
fn with_larger_batches_a_bad_row_takes_the_rows_of_its_batch_with_it() {
    // 5 is fetched together with 4, which cannot be deserialized: the fetch fails until the
    // cursor is at 4, and 5 is never processed.
    let (processed, fetches, end) = drive(&settings(2), Some(6), &[5, 4, 3, 2], &[4]);
    assert_eq!(processed, vec![3, 2]);
    assert_eq!(fetches, vec![6, 5, 4, 2]);
    assert_eq!(end, WalkEnd::Exhausted);
}

#[test]
fn the_size_of_the_batches_does_not_change_what_is_processed() {
    let rows = [40, 31, 30, 22, 9, 8, 7, 1, -5, i64::MIN];
    let (by_one, _, _) = drive(&settings(1), Some(41), &rows, &[]);
    for size in [2, 3, 4, 10, 100] {
        let (processed, _, end) = drive(&settings(size), Some(41), &rows, &[]);
        assert_eq!(processed, by_one);
        assert_eq!(end, WalkEnd::Exhausted);
    }
    assert_eq!(by_one, rows.to_vec());
}
