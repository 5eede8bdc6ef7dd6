use learning_progress::identity::Identity;
use learning_progress::progress::ProgressError;
use learning_progress::store::ProgressStore;

fn ident(tag: u64) -> Identity {
    Identity { w0: tag, w1: tag.wrapping_mul(7), w2: tag.wrapping_add(99), w3: !tag }
}

#[test]
fn initialize_creates_fresh_record() {
    let mut store = ProgressStore::new();
    let a = ident(1);
    assert_eq!(store.initialize_user(a, a), Ok(()));
    let rec = store.get_progress(&a).expect("record must exist");
    assert_eq!(rec.owner, a);
    assert_eq!(rec.total_modules_completed, 0);
    assert_eq!(rec.current_level, 1);
}

#[test]
fn second_initialize_fails_already_initialized() {
    let mut store = ProgressStore::new();
    let a = ident(2);
    assert_eq!(store.initialize_user(a, a), Ok(()));
    assert_eq!(store.initialize_user(a, a), Err(ProgressError::AlreadyInitialized));
    let rec = store.get_progress(&a).expect("record must survive");
    assert_eq!(rec.total_modules_completed, 0);
    assert_eq!(rec.current_level, 1);
}

#[test]
fn initialize_with_wrong_signer_fails_unauthorized() {
    let mut store = ProgressStore::new();
    let a = ident(3);
    let b = ident(4);
    assert_eq!(store.initialize_user(a, b), Err(ProgressError::Unauthorized));
    assert!(store.get_progress(&a).is_none());
}

#[test]
fn completions_count_one_per_call() {
    let mut store = ProgressStore::new();
    let a = ident(5);
    store.initialize_user(a, a).unwrap();
    for i in 1..=10u64 {
        store.complete_module(a, a, format!("module-{i}"), 50, 1_700_000_000).unwrap();
        assert_eq!(store.get_progress(&a).unwrap().total_modules_completed, i);
    }
}

#[test]
fn score_zero_counts_without_event() {
    let mut store = ProgressStore::new();
    let a = ident(21);
    store.initialize_user(a, a).unwrap();
    let ev = store.complete_module(a, a, String::new(), 0, 0).unwrap();
    assert!(ev.is_none());
    assert_eq!(store.get_progress(&a).unwrap().total_modules_completed, 1);
}

#[test]
fn empty_module_id_is_accepted() {
    let mut store = ProgressStore::new();
    let a = ident(22);
    store.initialize_user(a, a).unwrap();
    let ev = store.complete_module(a, a, String::new(), 95, 4).unwrap();
    let ev = ev.expect("score 95 must emit");
    assert_eq!(ev.module_id, "");
    assert_eq!(ev.score, 95);
}

#[test]
fn score_79_emits_no_event() {
    let mut store = ProgressStore::new();
    let a = ident(6);
    store.initialize_user(a, a).unwrap();
    let ev = store.complete_module(a, a, String::from("m"), 79, 7).unwrap();
    assert!(ev.is_none());
    assert_eq!(store.get_progress(&a).unwrap().total_modules_completed, 1);
}

#[test]
fn score_80_emits_event() {
    let mut store = ProgressStore::new();
    let a = ident(7);
    store.initialize_user(a, a).unwrap();
    let ev = store.complete_module(a, a, String::from("m"), 80, 7).unwrap();
    let ev = ev.expect("score 80 must emit");
    assert_eq!(ev.user, a);
    assert_eq!(ev.module_id, "m");
    assert_eq!(ev.score, 80);
    assert_eq!(ev.timestamp, 7);
}

#[test]
fn score_100_emits_event() {
    let mut store = ProgressStore::new();
    let a = ident(8);
    store.initialize_user(a, a).unwrap();
    let ev = store.complete_module(a, a, String::from("hard"), 100, -3).unwrap();
    let ev = ev.expect("score 100 must emit");
    assert_eq!(ev.user, a);
    assert_eq!(ev.module_id, "hard");
    assert_eq!(ev.score, 100);
    assert_eq!(ev.timestamp, -3);
}

#[test]
fn score_above_100_fails_invalid_score() {
    let mut store = ProgressStore::new();
    let a = ident(9);
    store.initialize_user(a, a).unwrap();
    let r = store.complete_module(a, a, String::from("m"), 101, 0);
    assert_eq!(r, Err(ProgressError::InvalidScore));
    assert_eq!(store.get_progress(&a).unwrap().total_modules_completed, 0);
}

#[test]
fn complete_module_wrong_signer_fails_and_leaves_record() {
    let mut store = ProgressStore::new();
    let a = ident(10);
    let b = ident(11);
    store.initialize_user(a, a).unwrap();
    let before = store.get_progress(&a).unwrap();
    let r = store.complete_module(a, b, String::from("m"), 90, 0);
    assert_eq!(r, Err(ProgressError::Unauthorized));
    let after = store.get_progress(&a).unwrap();
    assert_eq!(after, before);
}

#[test]
fn update_level_wrong_signer_fails_and_leaves_record() {
    let mut store = ProgressStore::new();
    let a = ident(12);
    let b = ident(13);
    store.initialize_user(a, a).unwrap();
    let before = store.get_progress(&a).unwrap();
    let r = store.update_level(a, b, 42);
    assert_eq!(r, Err(ProgressError::Unauthorized));
    let after = store.get_progress(&a).unwrap();
    assert_eq!(after, before);
}

#[test]
fn complete_module_without_record_fails_record_not_found() {
    let mut store = ProgressStore::new();
    let b = ident(14);
    let r = store.complete_module(b, b, String::from("m1"), 90, 0);
    assert_eq!(r, Err(ProgressError::RecordNotFound));
}

#[test]
fn update_level_without_record_fails_record_not_found() {
    let mut store = ProgressStore::new();
    let b = ident(15);
    assert_eq!(store.update_level(b, b, 3), Err(ProgressError::RecordNotFound));
}

#[test]
fn update_level_takes_any_byte_and_last_write_wins() {
    let mut store = ProgressStore::new();
    let a = ident(16);
    store.initialize_user(a, a).unwrap();
    store.update_level(a, a, 0).unwrap();
    assert_eq!(store.get_progress(&a).unwrap().current_level, 0);
    store.update_level(a, a, 255).unwrap();
    assert_eq!(store.get_progress(&a).unwrap().current_level, 255);
    store.complete_module(a, a, String::from("m"), 60, 0).unwrap();
    assert_eq!(store.get_progress(&a).unwrap().current_level, 255);
    store.update_level(a, a, 17).unwrap();
    let rec = store.get_progress(&a).unwrap();
    assert_eq!(rec.current_level, 17);
    assert_eq!(rec.total_modules_completed, 1);
}

#[test]
fn records_of_different_owners_are_independent() {
    let mut store = ProgressStore::new();
    let a = ident(17);
    let b = ident(18);
    store.initialize_user(a, a).unwrap();
    store.initialize_user(b, b).unwrap();
    store.complete_module(a, a, String::from("m"), 90, 0).unwrap();
    store.update_level(b, b, 9).unwrap();
    let ra = store.get_progress(&a).unwrap();
    let rb = store.get_progress(&b).unwrap();
    assert_eq!(ra.total_modules_completed, 1);
    assert_eq!(ra.current_level, 1);
    assert_eq!(rb.total_modules_completed, 0);
    assert_eq!(rb.current_level, 9);
}

#[test]
fn full_scenario() {
    let mut store = ProgressStore::new();
    let a = ident(19);
    let b = ident(20);

    assert_eq!(store.initialize_user(a, a), Ok(()));
    let rec = store.get_progress(&a).unwrap();
    assert_eq!(rec.owner, a);
    assert_eq!(rec.total_modules_completed, 0);
    assert_eq!(rec.current_level, 1);

    let ev = store.complete_module(a, a, String::from("m1"), 90, 1000).unwrap();
    let ev = ev.expect("score 90 must emit");
    assert_eq!(ev.user, a);
    assert_eq!(ev.module_id, "m1");
    assert_eq!(ev.score, 90);
    assert_eq!(store.get_progress(&a).unwrap().total_modules_completed, 1);

    let ev = store.complete_module(a, a, String::from("m2"), 50, 1001).unwrap();
    assert!(ev.is_none());
    assert_eq!(store.get_progress(&a).unwrap().total_modules_completed, 2);

    assert_eq!(store.update_level(a, a, 5), Ok(()));
    let rec = store.get_progress(&a).unwrap();
    assert_eq!(rec.current_level, 5);
    assert_eq!(rec.total_modules_completed, 2);

    assert_eq!(store.initialize_user(a, a), Err(ProgressError::AlreadyInitialized));

    let r = store.complete_module(b, b, String::from("m1"), 90, 1002);
    assert_eq!(r, Err(ProgressError::RecordNotFound));
}
