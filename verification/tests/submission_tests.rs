use view_store::block_map::BlockMap;
use view_store::hash::BlockHash;
use view_store::submission::{
    has_single_results, submit_and_watch, submit_at, submit_one, WatchError,
};

fn hash(byte: u8) -> BlockHash {
    BlockHash::new([byte; 32])
}

type TxResult = Result<u64, &'static str>;

#[test]
fn submit_at_without_views_gives_empty_map() {
    let results = submit_at::<TxResult>(vec![]);
    assert!(results.is_empty());
    assert_eq!(results.len(), 0);
}

#[test]
fn submit_at_gives_one_entry_per_view_with_one_result_per_transaction() {
    // Three views, four transactions; some are rejected by some views.
    let answers: Vec<(BlockHash, Vec<TxResult>)> = vec![
        (hash(1), vec![Ok(10), Ok(11), Err("stale"), Ok(13)]),
        (hash(2), vec![Err("bad proof"), Err("bad proof"), Err("stale"), Err("banned")]),
        (hash(3), vec![Ok(10), Ok(11), Ok(12), Ok(13)]),
    ];
    let results = submit_at(answers);
    assert_eq!(results.len(), 3);
    assert_eq!(results.key_list(), vec![hash(1), hash(2), hash(3)]);
    for i in 0..results.len() {
        assert_eq!(results.value_at(i).len(), 4);
    }
    assert_eq!(results.get(&hash(1)), Some(&vec![Ok(10), Ok(11), Err("stale"), Ok(13)]));
    assert_eq!(
        results.get(&hash(2)),
        Some(&vec![Err("bad proof"), Err("bad proof"), Err("stale"), Err("banned")])
    );
    assert_eq!(results.get(&hash(3)), Some(&vec![Ok(10), Ok(11), Ok(12), Ok(13)]));
    assert_eq!(results.get(&hash(4)), None);
}

#[test]
fn submit_at_keeps_the_later_answer_of_a_view() {
    let answers: Vec<(BlockHash, Vec<TxResult>)> =
        vec![(hash(1), vec![Ok(1)]), (hash(2), vec![Ok(2)]), (hash(1), vec![Err("late")])];
    let results = submit_at(answers);
    assert_eq!(results.len(), 2);
    assert_eq!(results.get(&hash(1)), Some(&vec![Err("late")]));
    assert_eq!(results.get(&hash(2)), Some(&vec![Ok(2)]));
}

#[test]
fn submit_one_gives_the_single_result_of_each_view() {
    let answers: Vec<(BlockHash, Vec<TxResult>)> =
        vec![(hash(7), vec![Ok(42)]), (hash(8), vec![Err("stale")]), (hash(9), vec![Ok(42)])];
    let results = submit_at(answers);
    assert!(has_single_results(&results));
    let output = submit_one(results);
    assert_eq!(output.len(), 3);
    assert_eq!(output.key_list(), vec![hash(7), hash(8), hash(9)]);
    assert_eq!(output.get(&hash(7)), Some(&Ok(42)));
    assert_eq!(output.get(&hash(8)), Some(&Err("stale")));
    assert_eq!(output.get(&hash(9)), Some(&Ok(42)));
}

#[test]
fn submit_one_without_views_gives_empty_map() {
    let results = submit_at::<TxResult>(vec![]);
    assert!(has_single_results(&results));
    let output = submit_one(results);
    assert!(output.is_empty());
}

#[test]
fn has_single_results_refuses_missing_and_surplus_results() {
    let none: BlockMap<Vec<TxResult>> = submit_at(vec![(hash(1), vec![Ok(1)]), (hash(2), vec![])]);
    assert!(!has_single_results(&none));
    let two: BlockMap<Vec<TxResult>> =
        submit_at(vec![(hash(1), vec![Ok(1), Ok(2)]), (hash(2), vec![Ok(1)])]);
    assert!(!has_single_results(&two));
}

#[test]
fn submit_and_watch_succeeds_when_one_view_accepts() {
    let answers: Vec<Result<(), &str>> = vec![Err("stale"), Ok(()), Err("banned")];
    assert!(submit_and_watch(answers).is_ok());
    let answers: Vec<Result<(), &str>> = vec![Ok(())];
    assert!(submit_and_watch(answers).is_ok());
    let answers: Vec<Result<(), &str>> = vec![Err("stale"), Err("banned"), Ok(())];
    assert!(submit_and_watch(answers).is_ok());
}

#[test]
fn submit_and_watch_fails_when_all_views_reject() {
    let answers: Vec<Result<(), &str>> = vec![Err("stale"), Err("banned"), Err("bad proof")];
    match submit_and_watch(answers) {
        Err(WatchError::Rejected(error)) => assert_eq!(error, "stale"),
        other => panic!("unexpected outcome: {:?}", other),
    }
    let answers: Vec<Result<(), &str>> = vec![Err("only")];
    assert!(matches!(submit_and_watch(answers), Err(WatchError::Rejected("only"))));
}

#[test]
fn submit_and_watch_without_views_is_an_error() {
    let answers: Vec<Result<(), &str>> = vec![];
    assert!(matches!(submit_and_watch(answers), Err(WatchError::NoViews)));
}
