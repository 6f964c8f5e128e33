use login_simulator::distortion::{distort, draw_distortion, Distortion, Edit};
use login_simulator::error::ErrorKind;
use login_simulator::identity::IdentityPool;
use login_simulator::lockout::LockedAccounts;
use login_simulator::probability::Probability;
use login_simulator::random::chance;
use login_simulator::text::{ip_text, push_decimal};
use rand::rngs::StdRng;
use rand::SeedableRng;

#[test]
fn ip_text_writes_dotted_decimals() {
    assert_eq!(ip_text(192, 168, 0, 1), "192.168.0.1");
    assert_eq!(ip_text(0, 0, 0, 0), "0.0.0.0");
    assert_eq!(ip_text(255, 255, 255, 255), "255.255.255.255");
    assert_eq!(ip_text(10, 100, 9, 99), "10.100.9.99");
}

#[test]
fn push_decimal_appends_every_byte_as_std_writes_it() {
    for n in 0..=255u8 {
        let mut out = String::from("x");
        push_decimal(&mut out, n);
        assert_eq!(out, format!("x{}", n));
    }
}

#[test]
fn distort_deletes_one_character() {
    let made = distort("alice", Distortion { index: 0, edit: Edit::Delete });
    assert_eq!(made, Ok(String::from("lice")));
    let made = distort("alice", Distortion { index: 3, edit: Edit::Delete });
    assert_eq!(made, Ok(String::from("alie")));
}

#[test]
fn distort_inserts_one_letter() {
    let made = distort("alice", Distortion { index: 0, edit: Edit::Insert('q') });
    assert_eq!(made, Ok(String::from("qalice")));
    let made = distort("alice", Distortion { index: 3, edit: Edit::Insert('z') });
    assert_eq!(made, Ok(String::from("alizce")));
}

#[test]
fn distort_counts_characters_not_bytes() {
    let made = distort("zoë!", Distortion { index: 2, edit: Edit::Delete });
    assert_eq!(made, Ok(String::from("zo!")));
    let made = distort("éa", Distortion { index: 0, edit: Edit::Insert('b') });
    assert_eq!(made, Ok(String::from("béa")));
}

#[test]
fn distort_refuses_short_names() {
    let delete = Distortion { index: 0, edit: Edit::Delete };
    assert_eq!(distort("", delete), Err(ErrorKind::InvalidInput));
    assert_eq!(distort("a", delete), Err(ErrorKind::InvalidInput));
    assert_eq!(distort("ab", delete), Ok(String::from("b")));
}

#[test]
fn distort_refuses_the_last_place_and_beyond() {
    assert_eq!(
        distort("alice", Distortion { index: 4, edit: Edit::Delete }),
        Err(ErrorKind::InvalidInput)
    );
    assert_eq!(
        distort("alice", Distortion { index: 9, edit: Edit::Insert('a') }),
        Err(ErrorKind::InvalidInput)
    );
}

#[test]
fn distort_refuses_what_is_no_lowercase_letter() {
    for letter in ['A', '1', ' ', '{', '`', 'é'] {
        assert_eq!(
            distort("alice", Distortion { index: 1, edit: Edit::Insert(letter) }),
            Err(ErrorKind::InvalidInput)
        );
    }
}

#[test]
fn drawn_distortions_can_be_made() {
    let mut rng = StdRng::seed_from_u64(7);
    let mut deletions = 0;
    let mut insertions = 0;
    for round in 0..500 {
        let length = 2 + round % 9;
        let drawn = draw_distortion(&mut rng, length);
        assert!(drawn.index < length - 1);
        match drawn.edit {
            Edit::Delete => deletions += 1,
            Edit::Insert(letter) => {
                assert!(letter.is_ascii_lowercase());
                insertions += 1;
            }
        }
        let name: String = "abcdefghijk".chars().take(length).collect();
        let made = distort(&name, drawn).unwrap();
        assert_eq!(made.chars().count().abs_diff(length), 1);
    }
    assert!(deletions > 0 && insertions > 0);
}

#[test]
fn chance_of_zero_never_hits_and_chance_of_one_always() {
    let mut rng = StdRng::seed_from_u64(1);
    let never = Probability::new(0, 10).unwrap();
    let always = Probability::new(10, 10).unwrap();
    for _ in 0..200 {
        assert!(!chance(&mut rng, never));
        assert!(chance(&mut rng, always));
    }
}

#[test]
fn chance_of_a_half_goes_both_ways() {
    let mut rng = StdRng::seed_from_u64(2);
    let hits = (0..400).filter(|_| chance(&mut rng, Probability::half())).count();
    assert!(hits > 100 && hits < 300);
}

#[test]
fn identity_pool_keeps_users_in_the_order_of_their_coming() {
    let mut pool = IdentityPool::new();
    assert_eq!(pool.len(), 0);
    pool.insert(String::from("alice"), vec![String::from("10.0.0.1")]).unwrap();
    pool.insert(String::from("bob"), vec![String::from("10.0.0.2"), String::from("10.0.0.3")])
        .unwrap();
    assert_eq!(pool.len(), 2);
    assert_eq!(pool.username(0), "alice");
    assert_eq!(pool.username(1), "bob");
    assert_eq!(pool.addresses(1), &vec![String::from("10.0.0.2"), String::from("10.0.0.3")]);
    assert_eq!(pool.position(&String::from("bob")), Some(1));
    assert_eq!(pool.position(&String::from("carol")), None);
    assert!(pool.contains(&String::from("alice")));
    assert!(!pool.contains(&String::from("alic")));
    assert_eq!(pool.get("alice"), Some(&vec![String::from("10.0.0.1")]));
    assert_eq!(pool.get("carol"), None);
}

#[test]
fn identity_pool_replaces_the_addresses_of_a_known_user() {
    let mut pool = IdentityPool::new();
    pool.insert(String::from("alice"), vec![String::from("10.0.0.1")]).unwrap();
    pool.insert(String::from("bob"), vec![String::from("10.0.0.2")]).unwrap();
    pool.insert(String::from("alice"), vec![String::from("10.9.9.9")]).unwrap();
    assert_eq!(pool.len(), 2);
    assert_eq!(pool.username(0), "alice");
    assert_eq!(pool.get("alice"), Some(&vec![String::from("10.9.9.9")]));
}

#[test]
fn identity_pool_refuses_a_user_without_addresses() {
    let mut pool = IdentityPool::new();
    assert_eq!(pool.insert(String::from("alice"), vec![]), Err(ErrorKind::InvalidInput));
    assert_eq!(pool.len(), 0);
}

#[test]
fn locked_accounts_release_the_one_locked_last() {
    let mut locked = LockedAccounts::new();
    assert_eq!(locked.len(), 0);
    assert_eq!(locked.release_latest(), None);
    locked.lock(String::from("alice"));
    locked.lock(String::from("bob"));
    locked.lock(String::from("alice"));
    assert_eq!(locked.len(), 2);
    assert!(locked.contains(&String::from("alice")));
    assert!(locked.contains(&String::from("bob")));
    assert!(!locked.contains(&String::from("carol")));
    assert_eq!(locked.release_latest(), Some(String::from("bob")));
    assert!(!locked.contains(&String::from("bob")));
    assert_eq!(locked.release_latest(), Some(String::from("alice")));
    assert_eq!(locked.release_latest(), None);
}
