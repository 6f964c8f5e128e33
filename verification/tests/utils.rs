use login_simulator::utils::{
    assign_ip_address, get_random_ip, role_accounts, split_lines, username_universe,
};
use rand::rngs::StdRng;
use rand::SeedableRng;

fn is_ip_address(text: &str) -> bool {
    let parts: Vec<&str> = text.split('.').collect();
    parts.len() == 4
        && parts.iter().all(|part| {
            !part.is_empty()
                && part.len() <= 3
                && part.chars().all(|c| c.is_ascii_digit())
                && (part.len() == 1 || !part.starts_with('0'))
                && part.parse::<u32>().map(|n| n <= 255).unwrap_or(false)
        })
}

#[test]
fn test_assing_ip() {
    let users = vec![format!("John"), format!("Green")];
    let userbase = assign_ip_address(users, 3);
    assert_eq!(userbase.get("John").unwrap().len() > 1, true);
}

#[test]
fn assigned_addresses_are_ip_addresses_within_the_range() {
    for max_range in [1u8, 2, 3, 7, 254] {
        let users: Vec<String> = (0..40).map(|i| format!("user{}", i)).collect();
        let pool = assign_ip_address(users.clone(), max_range);
        assert_eq!(pool.len(), users.len());
        for (index, user) in users.iter().enumerate() {
            assert_eq!(pool.username(index), user);
            let addresses = pool.addresses(index);
            assert!(!addresses.is_empty() && addresses.len() <= max_range as usize);
            assert!(addresses.iter().all(|ip| is_ip_address(ip)));
        }
    }
}

#[test]
fn assigning_is_the_same_every_time() {
    let users: Vec<String> = (0..25).map(|i| format!("user{}", i)).collect();
    let first = assign_ip_address(users.clone(), 3);
    let second = assign_ip_address(users, 3);
    for index in 0..first.len() {
        assert_eq!(first.addresses(index), second.addresses(index));
    }
}

#[test]
fn a_name_that_comes_again_keeps_its_place() {
    let users = vec![format!("ann"), format!("ben"), format!("ann"), format!("cy")];
    let pool = assign_ip_address(users, 3);
    assert_eq!(pool.len(), 3);
    assert_eq!(pool.username(0), "ann");
    assert_eq!(pool.username(1), "ben");
    assert_eq!(pool.username(2), "cy");
}

#[test]
fn assigning_to_nobody_gives_an_empty_pool() {
    assert_eq!(assign_ip_address(vec![], 3).len(), 0);
}

#[test]
fn random_ips_are_ip_addresses() {
    let mut rng = StdRng::seed_from_u64(13);
    let mut seen = std::collections::HashSet::new();
    for _ in 0..500 {
        let ip = get_random_ip(&mut rng);
        assert!(is_ip_address(&ip), "{}", ip);
        seen.insert(ip);
    }
    assert!(seen.len() > 400);
}

#[test]
fn split_lines_splits_at_line_feeds() {
    assert_eq!(split_lines("ann\nben\ncy"), vec!["ann", "ben", "cy"]);
    assert_eq!(split_lines("ann"), vec!["ann"]);
    assert_eq!(split_lines(""), vec![""]);
    assert_eq!(split_lines("ann\n"), vec!["ann", ""]);
    assert_eq!(split_lines("\n\nann"), vec!["", "", "ann"]);
    assert_eq!(split_lines("zoë\r\nønsker"), vec!["zoë\r", "ønsker"]);
}

#[test]
fn split_lines_agrees_with_std() {
    for text in ["a\nb", "\n", "one line", "x\n\ny\n", "\n\n\n"] {
        let expected: Vec<String> = text.split("\n").map(|s| s.to_string()).collect();
        assert_eq!(split_lines(text), expected);
    }
}

#[test]
fn role_accounts_are_three() {
    assert_eq!(role_accounts(), vec!["admin", "dba", "master"]);
}

#[test]
fn username_universe_pairs_every_first_with_every_last_name() {
    let first = vec![format!("Ann"), format!("Ben")];
    let last = vec![format!("Ito"), format!("Roy"), format!("Wu")];
    assert_eq!(
        username_universe(&first, &last),
        vec!["AnnIto", "AnnRoy", "AnnWu", "BenIto", "BenRoy", "BenWu", "admin", "dba", "master"]
    );
}

#[test]
fn username_universe_without_names_holds_the_roles() {
    assert_eq!(username_universe(&vec![], &vec![format!("Ito")]), vec!["admin", "dba", "master"]);
    assert_eq!(username_universe(&vec![format!("Ann")], &vec![]), vec!["admin", "dba", "master"]);
}
