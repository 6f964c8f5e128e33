use vstd::prelude::*;
use crate::arrival::{Arrival, HourSamples};
use crate::clock::{hours_of, is_timestamp, start_of, SECONDS_PER_HOUR, SECONDS_PER_MINUTE};
use crate::distortion::one_edit_apart;
use crate::error::ErrorKind;
use crate::identity::{addresses_of, names_of};
use crate::login::{
    draws_fit,
    ends_episode,
    episode_records,
    record_fits,
    try_budget,
    Episode,
    TryDraws,
};
use crate::probability::Probability;
use crate::records::{AttackRecord, LogRecord};
use crate::text::is_ip_address;

verus! {

/// What a simulator holds, but for the state of its random generator.
pub struct SimulatorView {
    pub start_date: Seq<char>,
    pub days: u64,
    pub attacker_success_probs: Seq<Probability>,
    pub valid_user_success_probs: Seq<Probability>,
    pub seed: u64,
    pub locked_accounts: Seq<Seq<char>>,
    pub userbase: Seq<(Seq<char>, Seq<Seq<char>>)>,
    pub logs: Seq<LogRecord>,
    pub attacks: Seq<AttackRecord>,
}

impl SimulatorView {
    /// The names of the users that exist.
    pub open spec fn names(self) -> Seq<Seq<char>> {
        names_of(self.userbase)
    }

    /// The two are set up alike: the same start, length, schedules, seed and
    /// users.
    pub open spec fn same_setting(self, other: SimulatorView) -> bool {
        &&& self.start_date == other.start_date
        &&& self.days == other.days
        &&& self.attacker_success_probs == other.attacker_success_probs
        &&& self.valid_user_success_probs == other.valid_user_success_probs
        &&& self.seed == other.seed
        &&& self.userbase == other.userbase
    }

    /// The episode of tries to log in as `username` from `source_ip` that
    /// begins after `when`.
    pub open spec fn episode(self, when: int, source_ip: Seq<char>, username: Seq<char>) -> Episode {
        Episode {
            known: self.names(),
            locked: self.locked_accounts.contains(username),
            username,
            source_ip,
            when,
        }
    }
}

/// At most the last of the locked accounts was released.
pub open spec fn released(before: Seq<Seq<char>>, after: Seq<Seq<char>>) -> bool {
    after == before || (before.len() > 0 && after == before.drop_last())
}

/// How an episode ends when chance decides as `draws` says: the time after
/// its last try, with its records at the end of the log; or its error, with
/// the log and the locks as they were.
pub open spec fn episode_outcome(
    before: SimulatorView,
    after: SimulatorView,
    episode: Episode,
    draws: Seq<TryDraws>,
    result: Result<i64, ErrorKind>,
) -> bool {
    match episode_records(episode, draws) {
        Ok(records) => {
            &&& result == Ok::<i64, ErrorKind>((episode.when + records.len()) as i64)
            &&& after.logs == before.logs + records
        },
        Err(error) => {
            &&& result == Err::<i64, ErrorKind>(error)
            &&& after.logs == before.logs
            &&& after.locked_accounts == before.locked_accounts
        },
    }
}

/// What an episode that ended at `end` added to the log, whatever chance
/// decided: no more records than its budget of tries, and one for each
/// second that passed; each of them one that the episode can leave; fewer
/// than the budget only where the last is a success or met a locked
/// account; and exactly one where the account was locked from the start.
pub open spec fn episode_logs_fit(
    before: Seq<LogRecord>,
    after: Seq<LogRecord>,
    episode: Episode,
    budget: nat,
    end: int,
) -> bool {
    let added = after.skip(before.len() as int);
    &&& before.len() <= after.len()
    &&& after.take(before.len() as int) == before
    &&& added.len() <= budget
    &&& end == episode.when + added.len()
    &&& is_timestamp(end)
    &&& forall|k: int| 0 <= k < added.len() ==> #[trigger] record_fits(episode, added, k)
    &&& added.len() < budget ==> added.len() > 0 && ends_episode(added.last().failure_reason)
    &&& episode.locked && budget >= 1 ==> added.len() == 1
}

/// What holds after an episode of tries to log in as `username` from
/// `source_ip`, begun after `when`.
pub open spec fn attempt_outcome(
    before: SimulatorView,
    after: SimulatorView,
    when: int,
    source_ip: Seq<char>,
    username: Seq<char>,
    accuracy: Probability,
    likelihoods: Seq<Probability>,
    result: Result<i64, ErrorKind>,
) -> bool {
    let episode = before.episode(when, source_ip, username);
    let budget = try_budget(likelihoods.len());
    &&& after.same_setting(before)
    &&& after.attacks == before.attacks
    &&& released(before.locked_accounts, after.locked_accounts)
    &&& exists|draws: Seq<TryDraws>|
        draws_fit(draws, username.len(), accuracy, likelihoods) && #[trigger] episode_outcome(
            before,
            after,
            episode,
            draws,
            result,
        )
    &&& match result {
        Ok(end) => episode_logs_fit(before.logs, after.logs, episode, budget, end as int),
        Err(error) => {
            &&& after.logs == before.logs
            &&& after.locked_accounts == before.locked_accounts
            &&& error == ErrorKind::InvalidInput || error == ErrorKind::InvalidDate
            &&& error == ErrorKind::InvalidInput ==> username.len() < 2 && !accuracy.is_certain()
            &&& error == ErrorKind::InvalidDate ==> !is_timestamp(when + budget)
        },
    }
}

/// The hours that a run of `days` days from `start_date` spans: `InvalidDate`
/// where the start cannot be read or the end is no timestamp.
pub open spec fn hour_range_of(start_date: Seq<char>, days: u64) -> Result<u64, ErrorKind> {
    match start_of(start_date) {
        Err(error) => Err(error),
        Ok(start) => hours_of(start as int, days),
    }
}

/// `name` is the name of a user, or one character edit away from one.
pub open spec fn near_a_user(names: Seq<Seq<char>>, name: Seq<char>) -> bool {
    exists|i: int|
        0 <= i < names.len() && (name == #[trigger] names[i] || one_edit_apart(names[i], name))
}

/// `address` is one of the addresses of a user.
pub open spec fn address_of_a_user(
    userbase: Seq<(Seq<char>, Seq<Seq<char>>)>,
    address: Seq<char>,
) -> bool {
    exists|i: int, j: int|
        0 <= i < userbase.len() && 0 <= j < userbase[i].1.len() && #[trigger] userbase[i].1[j]
            == address
}

/// A record that a run over `userbase` can leave after the time `from`: its
/// name is a user's or one edit from it, and its address is an IP address or
/// one of a user's.
pub open spec fn record_in_run(
    userbase: Seq<(Seq<char>, Seq<Seq<char>>)>,
    record: LogRecord,
    from: int,
) -> bool {
    &&& record.valid()
    &&& from < record.timestamp
    &&& near_a_user(names_of(userbase), record.username)
    &&& is_ip_address(record.source_ip) || address_of_a_user(userbase, record.source_ip)
}

/// The log grew at its end only, by records that a run over `userbase` can
/// leave after `from`.
pub open spec fn logs_extended(
    before: Seq<LogRecord>,
    after: Seq<LogRecord>,
    userbase: Seq<(Seq<char>, Seq<Seq<char>>)>,
    from: int,
) -> bool {
    &&& before.len() <= after.len()
    &&& after.take(before.len() as int) == before
    &&& forall|k: int|
        before.len() <= k < after.len() ==> record_in_run(userbase, #[trigger] after[k], from)
}

/// The log grew at its end only, by the records of an attack that began at
/// `when`: one for each second since, each under a user's name or one edit
/// from it, each from an IP address, and all from `hacker_ip` unless the
/// addresses vary.
pub open spec fn attack_logs_fit(
    before: Seq<LogRecord>,
    after: Seq<LogRecord>,
    userbase: Seq<(Seq<char>, Seq<Seq<char>>)>,
    when: int,
    hacker_ip: Seq<char>,
    vary_ips: bool,
) -> bool {
    &&& before.len() <= after.len()
    &&& after.take(before.len() as int) == before
    &&& forall|k: int|
        before.len() <= k < after.len() ==> {
            let record = #[trigger] after[k];
            &&& record.valid()
            &&& record.timestamp == when + (k - before.len()) + 1
            &&& near_a_user(names_of(userbase), record.username)
            &&& is_ip_address(record.source_ip)
            &&& !vary_ips ==> record.source_ip == hacker_ip
        }
}

/// Every user's name has two characters or more, so that each of them can
/// be mistyped.
pub open spec fn names_can_be_mistyped(userbase: Seq<(Seq<char>, Seq<Seq<char>>)>) -> bool {
    forall|i: int| 0 <= i < userbase.len() ==> (#[trigger] userbase[i]).0.len() >= 2
}

/// Nothing can go wrong in an attack on `targets` users that begins at
/// `when`: every name can be mistyped, there is an accuracy for each target,
/// and the time is a timestamp still when every episode has used up its
/// budget of tries.
pub open spec fn attack_is_safe(
    before: SimulatorView,
    when: int,
    targets: nat,
    accuracies: nat,
) -> bool {
    &&& names_can_be_mistyped(before.userbase)
    &&& accuracies >= targets
    &&& is_timestamp(when + targets * try_budget(before.attacker_success_probs.len()))
}

/// The seconds that the arrivals take at most: for each its gap and a
/// second for each try of the budget.
pub open spec fn arrivals_span(arrivals: Seq<Arrival>, budget: nat) -> int
    decreases arrivals.len(),
{
    if arrivals.len() == 0 {
        0
    } else {
        arrivals_span(arrivals.drop_last(), budget) + arrivals.last().gap_minutes
            * SECONDS_PER_MINUTE + budget
    }
}

/// The first arrivals take no longer than all of them.
pub proof fn lemma_arrivals_span_grows(arrivals: Seq<Arrival>, budget: nat, count: int)
    requires
        0 <= count <= arrivals.len(),
    ensures
        0 <= arrivals_span(arrivals.take(count), budget) <= arrivals_span(arrivals, budget),
    decreases arrivals.len(),
{
    if count == arrivals.len() {
        assert(arrivals.take(count) =~= arrivals);
        if count > 0 {
            lemma_arrivals_span_grows(arrivals.drop_last(), budget, count - 1);
            assert(arrivals.drop_last().take(count - 1) =~= arrivals.drop_last());
        }
    } else {
        lemma_arrivals_span_grows(arrivals.drop_last(), budget, count);
        assert(arrivals.drop_last().take(count) =~= arrivals.take(count));
    }
}

/// Nothing can go wrong in the hour that begins at `current`: there are
/// users, every name can be mistyped, there is an accuracy of the attacker
/// for every user, and the time is a timestamp still after the longest
/// attack from the last minute of the hour and after the longest course of
/// the arrivals.
pub open spec fn hour_is_safe(before: SimulatorView, current: int, samples: HourSamples) -> bool {
    &&& before.userbase.len() > 0
    &&& names_can_be_mistyped(before.userbase)
    &&& samples.attacker_accuracies@.len() >= before.userbase.len()
    &&& is_timestamp(
        current + 59 * SECONDS_PER_MINUTE + before.userbase.len() * try_budget(
            before.attacker_success_probs.len(),
        ),
    )
    &&& is_timestamp(
        current + arrivals_span(
            samples.arrivals@,
            try_budget(before.valid_user_success_probs.len()),
        ),
    )
}

/// The episode against the target at place `k` of an attack: it turns
/// `states[k]` into `states[k + 1]`, begins where the episode before it
/// ended, one second for each record since `when`, and comes from
/// `addresses[k]`.
pub open spec fn attack_step(
    states: Seq<SimulatorView>,
    when: int,
    targets: Seq<usize>,
    addresses: Seq<Seq<char>>,
    accuracies: Seq<Probability>,
    k: int,
) -> bool {
    attempt_outcome(
        states[k],
        states[k + 1],
        when + (states[k].logs.len() - states[0].logs.len()),
        addresses[k],
        names_of(states[0].userbase)[targets[k] as int],
        accuracies[k],
        states[0].attacker_success_probs,
        Ok((when + (states[k + 1].logs.len() - states[0].logs.len())) as i64),
    )
}

/// An attack is one episode for each target, in the order of the targets:
/// `states` holds what the simulator held before the first episode, between
/// each two, and after the last.
pub open spec fn attack_episodes(
    states: Seq<SimulatorView>,
    when: int,
    targets: Seq<usize>,
    addresses: Seq<Seq<char>>,
    accuracies: Seq<Probability>,
    hacker_ip: Seq<char>,
    vary_ips: bool,
) -> bool {
    &&& states.len() == targets.len() + 1
    &&& addresses.len() == targets.len()
    &&& forall|k: int|
        0 <= k < targets.len() ==> #[trigger] attack_step(
            states,
            when,
            targets,
            addresses,
            accuracies,
            k,
        )
    &&& forall|k: int|
        0 <= k < addresses.len() ==> is_ip_address(#[trigger] addresses[k]) && (!vary_ips
            ==> addresses[k] == hacker_ip)
}

/// What holds after an attack on `targets` that began at `when` and took
/// them in the order `shuffled`.
pub open spec fn hack_outcome(
    before: SimulatorView,
    after: SimulatorView,
    when: int,
    targets: Seq<usize>,
    shuffled: Seq<usize>,
    vary_ips: bool,
    accuracies: Seq<Probability>,
    result: Result<(String, i64), ErrorKind>,
) -> bool {
    let budget = try_budget(before.attacker_success_probs.len());
    &&& after.same_setting(before)
    &&& after.attacks == before.attacks
    &&& after.locked_accounts.is_prefix_of(before.locked_accounts)
    &&& shuffled.to_multiset() == targets.to_multiset()
    &&& accuracies.len() < targets.len() ==> result == Err::<(String, i64), ErrorKind>(
        ErrorKind::InvalidInput,
    )
    &&& attack_is_safe(before, when, targets.len(), accuracies.len()) ==> result is Ok
    &&& match result {
        Ok((hacker_ip, end)) => {
            &&& is_ip_address(hacker_ip@)
            &&& is_timestamp(end as int)
            &&& end == when + (after.logs.len() - before.logs.len())
            &&& after.logs.len() - before.logs.len() <= targets.len() * budget
            &&& budget >= 1 ==> after.logs.len() - before.logs.len() >= targets.len()
            &&& attack_logs_fit(before.logs, after.logs, before.userbase, when, hacker_ip@, vary_ips)
            &&& exists|states: Seq<SimulatorView>, addresses: Seq<Seq<char>>|
                states.len() > 0 && states[0] == before && states.last() == after
                    && #[trigger] attack_episodes(
                    states,
                    when,
                    shuffled,
                    addresses,
                    accuracies,
                    hacker_ip@,
                    vary_ips,
                )
        },
        Err(error) => {
            &&& after.logs == before.logs
            &&& error == ErrorKind::InvalidInput || error == ErrorKind::InvalidDate
        },
    }
}

/// An attack of the hour that begins at `current`: it starts within the
/// hour, does not end before it starts, and comes from an IP address.
pub open spec fn attack_in_hour(attack: AttackRecord, current: int) -> bool {
    &&& attack.valid()
    &&& current <= attack.start <= current + 59 * SECONDS_PER_MINUTE
    &&& is_ip_address(attack.source_ip)
}

/// The attack of the hour that begins at `current`: it starts `minutes`
/// whole minutes into the hour, goes for `targets`, distinct users, takes
/// them in the order `shuffled`, turns `before` into `fought`, and is entered
/// at the end of the attack entries with its start, its end and its
/// address.
pub open spec fn attack_made(
    before: SimulatorView,
    after: SimulatorView,
    current: int,
    try_all_users_prob: Probability,
    vary_ips: bool,
    accuracies: Seq<Probability>,
    minutes: int,
    targets: Seq<usize>,
    shuffled: Seq<usize>,
    fought: SimulatorView,
    ended: (String, i64),
) -> bool {
    let start = current + minutes * SECONDS_PER_MINUTE;
    &&& 0 <= minutes < 60
    &&& targets.no_duplicates()
    &&& forall|k: int| 0 <= k < targets.len() ==> #[trigger] targets[k] < before.userbase.len()
    &&& try_all_users_prob.is_certain() ==> targets == positions(before.userbase.len())
    &&& try_all_users_prob.is_never() ==> targets.len() < before.userbase.len()
    &&& hack_outcome(before, fought, start, targets, shuffled, vary_ips, accuracies, Ok(ended))
    &&& after == (SimulatorView {
        attacks: before.attacks.push(
            AttackRecord { start, end: ended.1 as int, source_ip: ended.0@ },
        ),
        ..fought
    })
}

/// What the attack injector does in the hour that begins at `current`:
/// nothing, or one attack; never an attack where its probability is zero,
/// and always one where it is one.
pub open spec fn hour_attack(
    before: SimulatorView,
    after: SimulatorView,
    current: int,
    attack_prob: Probability,
    try_all_users_prob: Probability,
    vary_ips: bool,
    accuracies: Seq<Probability>,
) -> bool {
    &&& attack_prob.is_never() ==> after == before
    &&& attack_prob.is_certain() ==> after.attacks.len() == before.attacks.len() + 1
    &&& after == before || exists|
        minutes: int,
        targets: Seq<usize>,
        shuffled: Seq<usize>,
        fought: SimulatorView,
        ended: (String, i64),
    |
        #[trigger] attack_made(
            before,
            after,
            current,
            try_all_users_prob,
            vary_ips,
            accuracies,
            minutes,
            targets,
            shuffled,
            fought,
            ended,
        )
}

/// The episode of the arrival at place `k` of an hour: it turns `states[k]`
/// into `states[k + 1]`, begins the arrival's gap after `times[k]`, ends at
/// `times[k + 1]`, and comes from `addresses[k]`, one of the user's own
/// addresses.
pub open spec fn arrival_step(
    states: Seq<SimulatorView>,
    times: Seq<int>,
    username: Seq<char>,
    addresses: Seq<Seq<char>>,
    arrivals: Seq<Arrival>,
    k: int,
) -> bool {
    &&& addresses_of(states[0].userbase, username).contains(addresses[k])
    &&& attempt_outcome(
        states[k],
        states[k + 1],
        times[k] + arrivals[k].gap_minutes * SECONDS_PER_MINUTE,
        addresses[k],
        username,
        arrivals[k].accuracy,
        states[0].valid_user_success_probs,
        Ok(times[k + 1] as i64),
    )
}

/// The legitimate logins of the hour that begins at `current`: one episode
/// of the user `username` for each arrival, in the order of the arrivals,
/// the clock starting at the beginning of the hour.
pub open spec fn hour_arrivals(
    states: Seq<SimulatorView>,
    times: Seq<int>,
    current: int,
    username: Seq<char>,
    addresses: Seq<Seq<char>>,
    arrivals: Seq<Arrival>,
) -> bool {
    &&& states.len() == arrivals.len() + 1
    &&& times.len() == arrivals.len() + 1
    &&& addresses.len() == arrivals.len()
    &&& times[0] == current
    &&& names_of(states[0].userbase).contains(username)
    &&& forall|k: int|
        0 <= k < arrivals.len() ==> #[trigger] arrival_step(
            states,
            times,
            username,
            addresses,
            arrivals,
            k,
        )
}

/// What holds after the hour that begins at `current`: the attack injector
/// had its turn, and then one user made the hour's legitimate logins.
pub open spec fn hour_outcome(
    before: SimulatorView,
    after: SimulatorView,
    current: int,
    attack_prob: Probability,
    try_all_users_prob: Probability,
    vary_ips: bool,
    samples: HourSamples,
    result: Result<(), ErrorKind>,
) -> bool {
    &&& after.same_setting(before)
    &&& after.locked_accounts.is_prefix_of(before.locked_accounts)
    &&& before.userbase.len() == 0 ==> result == Err::<(), ErrorKind>(ErrorKind::InvalidInput)
    &&& hour_is_safe(before, current, samples) ==> result is Ok
    &&& match result {
        Ok(_) => {
            &&& logs_extended(before.logs, after.logs, before.userbase, current)
            &&& after.attacks == before.attacks || (after.attacks.len() == before.attacks.len() + 1
                && after.attacks.drop_last() == before.attacks && attack_in_hour(
                after.attacks.last(),
                current,
            ))
            &&& exists|
                states: Seq<SimulatorView>,
                times: Seq<int>,
                username: Seq<char>,
                addresses: Seq<Seq<char>>,
            |
                states.len() > 0 && states.last() == after && hour_attack(
                    before,
                    states[0],
                    current,
                    attack_prob,
                    try_all_users_prob,
                    vary_ips,
                    samples.attacker_accuracies@,
                ) && #[trigger] hour_arrivals(
                    states,
                    times,
                    current,
                    username,
                    addresses,
                    samples.arrivals@,
                )
        },
        Err(error) => {
            &&& after.logs == before.logs
            &&& after.attacks == before.attacks
            &&& error == ErrorKind::InvalidInput || error == ErrorKind::InvalidDate
        },
    }
}

/// The hour of the run that began at `start` in which the time `when` falls.
pub open spec fn hour_of_run(start: int, when: int) -> int {
    (when - start) / 3_600
}

/// The attack entries grew at their end only, by attacks of a run of `hours`
/// hours that began at `start`: each begins in an hour of the run and comes
/// from an IP address, and each in a later hour than the one before it, so
/// that no hour has two.
pub open spec fn attacks_extended(
    before: Seq<AttackRecord>,
    after: Seq<AttackRecord>,
    start: int,
    hours: int,
) -> bool {
    &&& before.len() <= after.len()
    &&& after.take(before.len() as int) == before
    &&& after.len() - before.len() <= hours
    &&& forall|k: int|
        before.len() <= k < after.len() ==> {
            let attack = #[trigger] after[k];
            &&& attack.valid()
            &&& is_ip_address(attack.source_ip)
            &&& 0 <= hour_of_run(start, attack.start) < hours
        }
    &&& forall|j: int, k: int|
        before.len() <= j < k < after.len() ==> hour_of_run(start, (#[trigger] after[j]).start)
            < hour_of_run(start, (#[trigger] after[k]).start)
}

/// The hour at place `k` of a run that began at `start`: it turns
/// `states[k]` into `states[k + 1]` with what was sampled for it.
pub open spec fn hour_step(
    states: Seq<SimulatorView>,
    start: int,
    attack_prob: Probability,
    try_all_users_prob: Probability,
    vary_ips: bool,
    samples: Seq<HourSamples>,
    k: int,
) -> bool {
    hour_outcome(
        states[k],
        states[k + 1],
        start + k * SECONDS_PER_HOUR,
        attack_prob,
        try_all_users_prob,
        vary_ips,
        samples[k],
        Ok(()),
    )
}

/// A run is one hour after the other, as many as there are samples:
/// `states` holds what the simulator held before the first hour, between
/// each two, and after the last.
pub open spec fn run_hours(
    states: Seq<SimulatorView>,
    start: int,
    attack_prob: Probability,
    try_all_users_prob: Probability,
    vary_ips: bool,
    samples: Seq<HourSamples>,
) -> bool {
    &&& states.len() == samples.len() + 1
    &&& forall|k: int|
        0 <= k < samples.len() ==> #[trigger] hour_step(
            states,
            start,
            attack_prob,
            try_all_users_prob,
            vary_ips,
            samples,
            k,
        )
}

/// Nothing can go wrong in a run: its start can be read, it ends within the
/// calendar, there are samples for each of its hours, and nothing can go
/// wrong in any of them.
pub open spec fn run_is_safe(before: SimulatorView, samples: Seq<HourSamples>) -> bool {
    &&& hour_range_of(before.start_date, before.days) is Ok
    &&& samples.len() == hour_range_of(before.start_date, before.days).unwrap() + 1
    &&& forall|k: int|
        0 <= k < samples.len() ==> hour_is_safe(
            before,
            start_of(before.start_date).unwrap() + k * SECONDS_PER_HOUR,
            #[trigger] samples[k],
        )
}

/// What holds after a run with the samples `samples`, one entry for each of
/// its hours.
pub open spec fn run_outcome(
    before: SimulatorView,
    after: SimulatorView,
    attack_prob: Probability,
    try_all_users_prob: Probability,
    vary_ips: bool,
    samples: Seq<HourSamples>,
    result: Result<(), ErrorKind>,
) -> bool {
    &&& after.same_setting(before)
    &&& after.locked_accounts.is_prefix_of(before.locked_accounts)
    &&& match hour_range_of(before.start_date, before.days) {
        Err(error) => result == Err::<(), ErrorKind>(error),
        Ok(hours) => {
            &&& (before.userbase.len() == 0 || samples.len() != hours + 1) ==> result == Err::<
                (),
                ErrorKind,
            >(ErrorKind::InvalidInput)
            &&& run_is_safe(before, samples) ==> result is Ok
            &&& result is Ok ==> {
                let start = start_of(before.start_date).unwrap() as int;
                &&& logs_extended(before.logs, after.logs, before.userbase, start)
                &&& attacks_extended(before.attacks, after.attacks, start, hours + 1)
                &&& exists|states: Seq<SimulatorView>|
                    states[0] == before && states.last() == after && #[trigger] run_hours(
                        states,
                        start,
                        attack_prob,
                        try_all_users_prob,
                        vary_ips,
                        samples,
                    )
            }
        },
    }
    &&& result matches Err(error) ==> {
        &&& after.logs == before.logs
        &&& after.attacks == before.attacks
        &&& error == ErrorKind::InvalidInput || error == ErrorKind::InvalidDate
    }
}

/// The positions `0`, `1`, and so on below `count`.
pub open spec fn positions(count: nat) -> Seq<usize> {
    Seq::new(count, |i: int| i as usize)
}

/// Items taken from distinct places of the positions below `count` are
/// positions below `count`, and no two of them are the same.
pub proof fn lemma_picked_positions(picked: Seq<usize>, count: nat)
    requires
        count <= usize::MAX,
        picked.to_multiset().subset_of(positions(count).to_multiset()),
    ensures
        picked.no_duplicates(),
        forall|k: int| 0 <= k < picked.len() ==> #[trigger] picked[k] < count,
{
    broadcast use vstd::seq_lib::group_to_multiset_ensures;
    broadcast use vstd::multiset::group_multiset_axioms;

    let all = positions(count);
    assert(all.no_duplicates());
    all.lemma_multiset_has_no_duplicates();
    assert forall|x: usize| picked.to_multiset().contains(x) implies picked.to_multiset().count(x)
        == 1 by {
        assert(picked.to_multiset().count(x) <= all.to_multiset().count(x));
        assert(all.to_multiset().contains(x));
    }
    picked.lemma_multiset_has_no_duplicates_conv();
    assert forall|k: int| 0 <= k < picked.len() implies #[trigger] picked[k] < count by {
        let x = picked[k];
        assert(picked.contains(x));
        assert(picked.to_multiset().count(x) > 0);
        assert(picked.to_multiset().count(x) <= all.to_multiset().count(x));
        assert(all.contains(x));
        let i = choose|i: int| 0 <= i < all.len() && all[i] == x;
        assert(all[i] == i);
    }
}

/// The same items in another order are as many, stay below a bound that the
/// items were below, and stay distinct where the items were.
pub proof fn lemma_same_items(before: Seq<usize>, after: Seq<usize>, bound: nat)
    requires
        after.to_multiset() == before.to_multiset(),
        forall|k: int| 0 <= k < before.len() ==> #[trigger] before[k] < bound,
    ensures
        after.len() == before.len(),
        forall|k: int| 0 <= k < after.len() ==> #[trigger] after[k] < bound,
        before.no_duplicates() ==> after.no_duplicates(),
{
    broadcast use vstd::seq_lib::group_to_multiset_ensures;
    broadcast use vstd::multiset::group_multiset_axioms;

    assert(after.to_multiset().len() == after.len());
    assert(before.to_multiset().len() == before.len());
    assert forall|k: int| 0 <= k < after.len() implies #[trigger] after[k] < bound by {
        let x = after[k];
        assert(after.contains(x));
        assert(after.to_multiset().count(x) > 0);
        assert(before.contains(x));
        let i = choose|i: int| 0 <= i < before.len() && before[i] == x;
        assert(before[i] < bound);
    }
    if before.no_duplicates() {
        before.lemma_multiset_has_no_duplicates();
        after.lemma_multiset_has_no_duplicates_conv();
    }
}

pub(crate) proof fn lemma_near_a_user(names: Seq<Seq<char>>, username: Seq<char>, typed: Seq<char>)
    requires
        names.contains(username),
        typed == username || one_edit_apart(username, typed),
    ensures
        near_a_user(names, typed),
{
    let i = choose|i: int| 0 <= i < names.len() && names[i] == username;
    assert(typed == names[i] || one_edit_apart(names[i], typed));
}

pub(crate) proof fn lemma_attack_logs_grow(
    before: Seq<LogRecord>,
    mid: Seq<LogRecord>,
    after: Seq<LogRecord>,
    userbase: Seq<(Seq<char>, Seq<Seq<char>>)>,
    when: int,
    hacker_ip: Seq<char>,
    vary_ips: bool,
    episode: Episode,
    budget: nat,
    end: int,
)
    requires
        attack_logs_fit(before, mid, userbase, when, hacker_ip, vary_ips),
        episode_logs_fit(mid, after, episode, budget, end),
        episode.when == when + (mid.len() - before.len()),
        names_of(userbase).contains(episode.username),
        is_ip_address(episode.source_ip),
        !vary_ips ==> episode.source_ip == hacker_ip,
    ensures
        attack_logs_fit(before, after, userbase, when, hacker_ip, vary_ips),
        end == when + (after.len() - before.len()),
        after.len() - mid.len() <= budget,
        budget >= 1 ==> after.len() - mid.len() >= 1,
{
    let added = after.skip(mid.len() as int);
    assert(after.take(before.len() as int) =~= before) by {
        assert(after.take(mid.len() as int) == mid);
        assert(mid.take(before.len() as int) == before);
        assert forall|k: int| 0 <= k < before.len() implies after[k] == before[k] by {
            assert(after[k] == after.take(mid.len() as int)[k]);
            assert(mid[k] == mid.take(before.len() as int)[k]);
        }
    }
    assert forall|k: int| before.len() <= k < after.len() implies {
        let record = #[trigger] after[k];
        &&& record.valid()
        &&& record.timestamp == when + (k - before.len()) + 1
        &&& near_a_user(names_of(userbase), record.username)
        &&& is_ip_address(record.source_ip)
        &&& !vary_ips ==> record.source_ip == hacker_ip
    } by {
        if k < mid.len() {
            assert(after[k] == after.take(mid.len() as int)[k]);
            assert(after[k] == mid[k]);
        } else {
            assert(after[k] == added[k - mid.len()]);
            assert(record_fits(episode, added, k - mid.len()));
            lemma_near_a_user(names_of(userbase), episode.username, after[k].username);
        }
    }
}

pub(crate) proof fn lemma_logs_grow(
    before: Seq<LogRecord>,
    mid: Seq<LogRecord>,
    after: Seq<LogRecord>,
    userbase: Seq<(Seq<char>, Seq<Seq<char>>)>,
    from: int,
    episode: Episode,
    budget: nat,
    end: int,
)
    requires
        logs_extended(before, mid, userbase, from),
        episode_logs_fit(mid, after, episode, budget, end),
        from <= episode.when,
        names_of(userbase).contains(episode.username),
        is_ip_address(episode.source_ip) || address_of_a_user(userbase, episode.source_ip),
    ensures
        logs_extended(before, after, userbase, from),
{
    let added = after.skip(mid.len() as int);
    assert(after.take(before.len() as int) =~= before) by {
        assert forall|k: int| 0 <= k < before.len() implies after[k] == before[k] by {
            assert(after[k] == after.take(mid.len() as int)[k]);
            assert(mid[k] == mid.take(before.len() as int)[k]);
        }
    }
    assert forall|k: int| before.len() <= k < after.len() implies record_in_run(
        userbase,
        #[trigger] after[k],
        from,
    ) by {
        if k < mid.len() {
            assert(after[k] == after.take(mid.len() as int)[k]);
            assert(after[k] == mid[k]);
        } else {
            assert(after[k] == added[k - mid.len()]);
            assert(record_fits(episode, added, k - mid.len()));
            lemma_near_a_user(names_of(userbase), episode.username, after[k].username);
        }
    }
}

pub(crate) proof fn lemma_attack_logs_in_run(
    before: Seq<LogRecord>,
    mid: Seq<LogRecord>,
    after: Seq<LogRecord>,
    userbase: Seq<(Seq<char>, Seq<Seq<char>>)>,
    from: int,
    when: int,
    hacker_ip: Seq<char>,
    vary_ips: bool,
)
    requires
        logs_extended(before, mid, userbase, from),
        attack_logs_fit(mid, after, userbase, when, hacker_ip, vary_ips),
        from <= when,
    ensures
        logs_extended(before, after, userbase, from),
{
    assert(after.take(before.len() as int) =~= before) by {
        assert forall|k: int| 0 <= k < before.len() implies after[k] == before[k] by {
            assert(after[k] == after.take(mid.len() as int)[k]);
            assert(mid[k] == mid.take(before.len() as int)[k]);
        }
    }
    assert forall|k: int| before.len() <= k < after.len() implies record_in_run(
        userbase,
        #[trigger] after[k],
        from,
    ) by {
        if k < mid.len() {
            assert(after[k] == after.take(mid.len() as int)[k]);
            assert(after[k] == mid[k]);
        }
    }
}

pub(crate) proof fn lemma_address_of_a_user(
    userbase: Seq<(Seq<char>, Seq<Seq<char>>)>,
    username: Seq<char>,
    address: Seq<char>,
)
    requires
        names_of(userbase).contains(username),
        addresses_of(userbase, username).contains(address),
    ensures
        address_of_a_user(userbase, address),
{
    let names = names_of(userbase);
    let i = names.index_of(username);
    assert(names[i] == username);
    let addresses = userbase[i].1;
    let j = choose|j: int| 0 <= j < addresses.len() && addresses[j] == address;
    assert(userbase[i].1[j] == address);
}

pub(crate) proof fn lemma_logs_extended_twice(
    before: Seq<LogRecord>,
    mid: Seq<LogRecord>,
    after: Seq<LogRecord>,
    userbase: Seq<(Seq<char>, Seq<Seq<char>>)>,
    from: int,
    later: int,
)
    requires
        logs_extended(before, mid, userbase, from),
        logs_extended(mid, after, userbase, later),
        from <= later,
    ensures
        logs_extended(before, after, userbase, from),
{
    assert(after.take(before.len() as int) =~= before) by {
        assert forall|k: int| 0 <= k < before.len() implies after[k] == before[k] by {
            assert(after[k] == after.take(mid.len() as int)[k]);
            assert(mid[k] == mid.take(before.len() as int)[k]);
        }
    }
    assert forall|k: int| before.len() <= k < after.len() implies record_in_run(
        userbase,
        #[trigger] after[k],
        from,
    ) by {
        if k < mid.len() {
            assert(after[k] == after.take(mid.len() as int)[k]);
            assert(after[k] == mid[k]);
        }
    }
}

pub(crate) proof fn lemma_attacks_grow(
    before: Seq<AttackRecord>,
    mid: Seq<AttackRecord>,
    after: Seq<AttackRecord>,
    start: int,
    offset: int,
)
    requires
        0 <= offset,
        attacks_extended(before, mid, start, offset),
        after == mid || (after.len() == mid.len() + 1 && after.drop_last() == mid && attack_in_hour(
            after.last(),
            start + offset * SECONDS_PER_HOUR,
        )),
    ensures
        attacks_extended(before, after, start, offset + 1),
{
    if after != mid {
        let attack = after.last();
        assert(hour_of_run(start, attack.start) == offset);
        assert(after.take(before.len() as int) =~= before) by {
            assert forall|k: int| 0 <= k < before.len() implies after[k] == before[k] by {
                assert(after[k] == after.drop_last()[k]);
                assert(mid[k] == mid.take(before.len() as int)[k]);
            }
        }
        assert forall|k: int| before.len() <= k < after.len() implies {
            let entry = #[trigger] after[k];
            &&& entry.valid()
            &&& is_ip_address(entry.source_ip)
            &&& 0 <= hour_of_run(start, entry.start) < offset + 1
        } by {
            if k < mid.len() {
                assert(after[k] == after.drop_last()[k]);
            }
        }
        assert forall|j: int, k: int| before.len() <= j < k < after.len() implies hour_of_run(
            start,
            (#[trigger] after[j]).start,
        ) < hour_of_run(start, (#[trigger] after[k]).start) by {
            assert(after[j] == after.drop_last()[j]);
            if k < mid.len() {
                assert(after[k] == after.drop_last()[k]);
            }
        }
    }
}

} // verus!
