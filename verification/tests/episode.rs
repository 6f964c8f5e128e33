use login_simulator::clock::MAX_TIMESTAMP;
use login_simulator::distortion::{Distortion, Edit};
use login_simulator::error::ErrorKind;
use login_simulator::identity::IdentityPool;
use login_simulator::login::{draw_episode, run_episode, TryDraws, ATTEMPTS_BEFORE_LOCKOUT};
use login_simulator::probability::Probability;
use login_simulator::records::FailureReason;
use rand::rngs::StdRng;
use rand::SeedableRng;

const NOON: i64 = 1_641_038_400;

fn pool() -> IdentityPool {
    let mut pool = IdentityPool::new();
    pool.insert(String::from("alice"), vec![String::from("10.0.0.1")]).unwrap();
    pool.insert(String::from("lice"), vec![String::from("10.0.0.2")]).unwrap();
    pool.insert(String::from("x"), vec![String::from("10.0.0.3")]).unwrap();
    pool
}

fn plain(succeeds: bool) -> TryDraws {
    TryDraws { distortion: None, reverts: false, succeeds }
}

fn mistaken(index: usize, edit: Edit, reverts: bool) -> TryDraws {
    TryDraws { distortion: Some(Distortion { index, edit }), reverts, succeeds: true }
}

fn run(locked: bool, when: i64, username: &str, draws: Vec<TryDraws>) -> Result<Vec<(i64, String, bool, Option<FailureReason>)>, ErrorKind> {
    let logs = run_episode(
        &pool(),
        locked,
        when,
        &String::from("203.0.113.9"),
        &String::from(username),
        &draws,
    )?;
    for log in &logs {
        assert_eq!(log.source_ip(), "203.0.113.9");
        assert_eq!(log.success(), log.failure_reason().is_none());
    }
    Ok(logs
        .iter()
        .map(|log| (log.timestamp(), log.username().clone(), log.success(), log.failure_reason()))
        .collect())
}

#[test]
fn a_success_at_the_first_try_ends_the_episode() {
    let records = run(false, NOON, "alice", vec![plain(true), plain(true), plain(true)]).unwrap();
    assert_eq!(records, vec![(NOON + 1, String::from("alice"), true, None)]);
}

#[test]
fn wrong_passwords_use_up_the_tries() {
    let records = run(false, NOON, "alice", vec![plain(false), plain(false), plain(false)]).unwrap();
    let wrong = Some(FailureReason::WrongPassword);
    assert_eq!(
        records,
        vec![
            (NOON + 1, String::from("alice"), false, wrong),
            (NOON + 2, String::from("alice"), false, wrong),
            (NOON + 3, String::from("alice"), false, wrong),
        ]
    );
}

#[test]
fn a_success_after_a_wrong_password_ends_the_episode() {
    let records = run(false, NOON, "alice", vec![plain(false), plain(true), plain(false)]).unwrap();
    assert_eq!(
        records,
        vec![
            (NOON + 1, String::from("alice"), false, Some(FailureReason::WrongPassword)),
            (NOON + 2, String::from("alice"), true, None),
        ]
    );
}

#[test]
fn a_locked_account_leaves_exactly_one_record() {
    let draws = vec![plain(true), plain(true), plain(true)];
    let records = run(true, NOON, "alice", draws).unwrap();
    assert_eq!(
        records,
        vec![(NOON + 1, String::from("alice"), false, Some(FailureReason::AccountLocked))]
    );
}

#[test]
fn a_locked_account_is_refused_under_the_name_that_was_typed() {
    let draws = vec![mistaken(1, Edit::Insert('k'), true), plain(true)];
    let records = run(true, NOON, "alice", draws).unwrap();
    assert_eq!(
        records,
        vec![(NOON + 1, String::from("aklice"), false, Some(FailureReason::AccountLocked))]
    );
}

#[test]
fn a_locked_account_without_a_try_leaves_no_record() {
    assert_eq!(run(true, NOON, "alice", vec![]).unwrap(), vec![]);
}

#[test]
fn no_tries_leave_no_record() {
    assert_eq!(run(false, NOON, "alice", vec![]).unwrap(), vec![]);
}

#[test]
fn a_name_that_does_not_exist_fails_and_the_next_try_reverts() {
    let draws = vec![
        mistaken(2, Edit::Delete, true),
        mistaken(0, Edit::Insert('q'), false),
        plain(true),
    ];
    let records = run(false, NOON, "alice", draws).unwrap();
    assert_eq!(
        records,
        vec![
            (NOON + 1, String::from("alce"), false, Some(FailureReason::WrongUsername)),
            (NOON + 2, String::from("alice"), true, None),
        ]
    );
}

#[test]
fn without_reverting_the_next_try_decides_anew() {
    let draws = vec![
        mistaken(2, Edit::Delete, false),
        mistaken(0, Edit::Insert('q'), false),
        TryDraws { distortion: None, reverts: true, succeeds: false },
    ];
    let records = run(false, NOON, "alice", draws).unwrap();
    assert_eq!(
        records,
        vec![
            (NOON + 1, String::from("alce"), false, Some(FailureReason::WrongUsername)),
            (NOON + 2, String::from("qalice"), false, Some(FailureReason::WrongUsername)),
            (NOON + 3, String::from("alice"), false, Some(FailureReason::WrongPassword)),
        ]
    );
}

#[test]
fn a_mistake_that_gives_another_users_name_is_judged_by_the_password() {
    let draws = vec![mistaken(0, Edit::Delete, true), plain(true)];
    let records = run(false, NOON, "alice", draws).unwrap();
    assert_eq!(records, vec![(NOON + 1, String::from("lice"), true, None)]);
}

#[test]
fn a_target_that_does_not_exist_fails_for_the_name() {
    let records = run(false, NOON, "mallory", vec![plain(true), plain(true)]).unwrap();
    let unknown = Some(FailureReason::WrongUsername);
    assert_eq!(
        records,
        vec![
            (NOON + 1, String::from("mallory"), false, unknown),
            (NOON + 2, String::from("mallory"), false, unknown),
        ]
    );
}

#[test]
fn a_name_too_short_to_distort_is_invalid_input() {
    let draws = vec![mistaken(0, Edit::Delete, false)];
    assert_eq!(run(false, NOON, "x", draws), Err(ErrorKind::InvalidInput));
}

#[test]
fn a_short_name_typed_exactly_is_fine() {
    let records = run(false, NOON, "x", vec![plain(true)]).unwrap();
    assert_eq!(records, vec![(NOON + 1, String::from("x"), true, None)]);
}

#[test]
fn a_mistake_after_the_end_of_the_episode_is_never_made() {
    let draws = vec![plain(true), mistaken(0, Edit::Delete, false)];
    let records = run(false, NOON, "x", draws).unwrap();
    assert_eq!(records.len(), 1);
}

#[test]
fn a_try_beyond_the_last_second_is_an_invalid_date() {
    assert_eq!(run(false, MAX_TIMESTAMP, "alice", vec![plain(true)]), Err(ErrorKind::InvalidDate));
    let draws = vec![plain(false), plain(false), plain(false)];
    assert_eq!(run(false, MAX_TIMESTAMP - 2, "alice", draws), Err(ErrorKind::InvalidDate));
}

#[test]
fn an_episode_that_ends_in_time_may_start_near_the_last_second() {
    let draws = vec![plain(false), plain(true), plain(false)];
    let records = run(false, MAX_TIMESTAMP - 2, "alice", draws).unwrap();
    assert_eq!(records.last().unwrap().0, MAX_TIMESTAMP);
}

#[test]
fn drawn_episodes_have_one_entry_for_each_try_of_the_budget() {
    let mut rng = StdRng::seed_from_u64(3);
    let p = Probability::new(1, 2).unwrap();
    for length in 0..6 {
        let schedule = vec![p; length];
        let draws = draw_episode(&mut rng, 5, p, &schedule);
        assert_eq!(draws.len(), length.min(ATTEMPTS_BEFORE_LOCKOUT));
    }
}

#[test]
fn drawn_episodes_obey_probabilities_of_zero_and_one() {
    let mut rng = StdRng::seed_from_u64(4);
    let never = Probability::new(0, 1).unwrap();
    let always = Probability::new(1, 1).unwrap();
    for _ in 0..50 {
        for drawn in draw_episode(&mut rng, 5, always, &vec![always, never, always]) {
            assert!(drawn.distortion.is_none() && drawn.reverts);
        }
        let draws = draw_episode(&mut rng, 5, never, &vec![always, never, always]);
        assert!(draws[0].succeeds && !draws[1].succeeds && draws[2].succeeds);
        for drawn in draws {
            let distortion = drawn.distortion.unwrap();
            assert!(distortion.index < 4);
            assert!(!drawn.reverts);
        }
    }
}

#[test]
fn drawn_episodes_never_exceed_the_budget_when_run() {
    let mut rng = StdRng::seed_from_u64(5);
    let accuracy = Probability::new(35, 100).unwrap();
    let schedule = vec![Probability::new(1, 4).unwrap(); 5];
    for round in 0..300 {
        let draws = draw_episode(&mut rng, 5, accuracy, &schedule);
        let records = run(round % 7 == 0, NOON, "alice", draws).unwrap();
        assert!(records.len() <= 3);
        if round % 7 == 0 {
            assert_eq!(records.len(), 1);
            assert_eq!(records[0].3, Some(FailureReason::AccountLocked));
        }
        for (k, record) in records.iter().enumerate() {
            assert_eq!(record.0, NOON + 1 + k as i64);
            if k + 1 < records.len() {
                assert!(
                    record.3 == Some(FailureReason::WrongUsername)
                        || record.3 == Some(FailureReason::WrongPassword)
                );
            }
        }
    }
}
