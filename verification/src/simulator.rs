use vstd::prelude::*;
use vstd::string::StrSliceExecFns;
use rand::rngs::StdRng;
use crate::arrival::HourSamples;
use crate::clock::{advance, hour_range, is_timestamp, parse_start, start_of, SECONDS_PER_HOUR};
use crate::distortion::{
    can_distort,
    distort,
    distorted,
    draw_distortion,
    lemma_distortion_is_one_edit,
    one_edit_apart,
    Distortion,
};
use crate::error::ErrorKind;
use crate::identity::{addresses_of, names_of, IdentityPool};
use crate::lockout::LockedAccounts;
use crate::login::{
    draw_episode,
    lemma_episode_records,
    lemma_episode_runs,
    record_fits,
    run_episode,
    try_budget,
};
use crate::outcome::{
    arrival_step,
    arrivals_span,
    attack_episodes,
    attack_in_hour,
    attack_is_safe,
    attack_logs_fit,
    attack_made,
    attack_step,
    attacks_extended,
    attempt_outcome,
    episode_outcome,
    hack_outcome,
    hour_arrivals,
    hour_attack,
    hour_is_safe,
    hour_outcome,
    hour_range_of,
    hour_step,
    lemma_address_of_a_user,
    lemma_arrivals_span_grows,
    lemma_attack_logs_grow,
    lemma_attack_logs_in_run,
    lemma_attacks_grow,
    lemma_logs_extended_twice,
    lemma_logs_grow,
    lemma_picked_positions,
    lemma_same_items,
    logs_extended,
    positions,
    run_hours,
    run_is_safe,
    run_outcome,
    SimulatorView,
};
use crate::probability::Probability;
use crate::random::{chance, choose_multiple, random_below, seeded_generator, shuffle};
use crate::records::{attack_records, log_records, Attack, AttackRecord, Log, LogRecord};
use crate::text::{is_ip_address, texts};
use crate::utils::get_random_ip;

verus! {

/// The engine of one run: its setting, the one random generator that every
/// draw comes from, the accounts that are locked, and the entries gathered
/// so far.
pub struct Simulator<'a> {
    start_date: &'a str,
    days: u64,
    attacker_success_probs: Vec<Probability>,
    valid_user_success_probs: Vec<Probability>,
    seed: u64,
    locked_accounts: LockedAccounts,
    /// The random source of the run. Who samples on the engine's behalf
    /// draws from it too.
    pub rng: StdRng,
    userbase: &'a IdentityPool,
    logs: Vec<Log>,
    attacks: Vec<Attack>,
}

impl<'a> View for Simulator<'a> {
    type V = SimulatorView;

    closed spec fn view(&self) -> SimulatorView {
        SimulatorView {
            start_date: self.start_date@,
            days: self.days,
            attacker_success_probs: self.attacker_success_probs@,
            valid_user_success_probs: self.valid_user_success_probs@,
            seed: self.seed,
            locked_accounts: self.locked_accounts@,
            userbase: self.userbase@,
            logs: log_records(self.logs@),
            attacks: attack_records(self.attacks@),
        }
    }
}

fn copy_schedule(schedule: &Vec<Probability>) -> (copy: Vec<Probability>)
    ensures
        copy@ == schedule@,
{
    let mut copy: Vec<Probability> = Vec::new();
    let mut index: usize = 0;
    while index < schedule.len()
        invariant
            index <= schedule.len(),
            copy@ == schedule@.take(index as int),
        decreases schedule.len() - index,
    {
        copy.push(schedule[index]);
        assert(schedule@.take(index + 1) =~= schedule@.take(index as int).push(schedule@[index as int]));
        index += 1;
    }
    assert(schedule@.take(index as int) =~= schedule@);
    copy
}

impl<'a> Simulator<'a> {
    /// The users are a pool, no name twice and an address for each; every
    /// log entry has a timestamp, and a reason exactly where it failed; no
    /// attack ends before it starts.
    pub open spec fn wf(&self) -> bool {
        &&& IdentityPool::valid(self@.userbase)
        &&& forall|k: int| 0 <= k < self@.logs.len() ==> (#[trigger] self@.logs[k]).valid()
        &&& forall|k: int| 0 <= k < self@.attacks.len() ==> (#[trigger] self@.attacks[k]).valid()
    }

    /// An engine for a run of `days` days from `start_date` over the users of
    /// `userbase`, its generator started from `seed`, with nothing logged
    /// and no account locked.
    pub fn new(
        start_date: &'a str,
        days: u64,
        attacker_success_probs: Vec<Probability>,
        valid_user_success_probs: Vec<Probability>,
        seed: u64,
        userbase: &'a IdentityPool,
    ) -> (simulator: Self)
        requires
            userbase.wf(),
        ensures
            simulator.wf(),
            simulator@ == (SimulatorView {
                start_date: start_date@,
                days,
                attacker_success_probs: attacker_success_probs@,
                valid_user_success_probs: valid_user_success_probs@,
                seed,
                locked_accounts: Seq::empty(),
                userbase: userbase@,
                logs: Seq::empty(),
                attacks: Seq::empty(),
            }),
    {
        let rng = seeded_generator(seed);
        let simulator = Simulator {
            start_date,
            days,
            attacker_success_probs,
            valid_user_success_probs,
            seed,
            locked_accounts: LockedAccounts::new(),
            rng,
            userbase,
            logs: Vec::new(),
            attacks: Vec::new(),
        };
        assert(simulator@.logs =~= Seq::<LogRecord>::empty());
        assert(simulator@.attacks =~= Seq::<AttackRecord>::empty());
        simulator
    }

    /// The users that exist.
    pub fn userbase(&self) -> (pool: &'a IdentityPool)
        ensures
            pool@ == self@.userbase,
    {
        self.userbase
    }

    /// The log entries gathered so far, in the order in which they were made.
    pub fn logs(&self) -> (logs: &Vec<Log>)
        ensures
            log_records(logs@) == self@.logs,
    {
        &self.logs
    }

    /// The attack entries gathered so far, in the order in which they were
    /// made. None of them ends before it starts.
    pub fn attacks(&self) -> (attacks: &Vec<Attack>)
        requires
            self.wf(),
        ensures
            attack_records(attacks@) == self@.attacks,
            forall|k: int|
                0 <= k < attacks@.len() ==> (#[trigger] attacks@[k])@.start <= attacks@[k]@.end,
    {
        assert forall|k: int| 0 <= k < self.attacks@.len() implies (
        #[trigger] self.attacks@[k])@.start <= self.attacks@[k]@.end by {
            assert(self@.attacks[k] == self.attacks@[k]@);
            assert(self@.attacks[k].valid());
        }
        &self.attacks
    }

    /// The accounts that are locked, in the order in which they were locked.
    pub fn locked_accounts(&self) -> (locked: &LockedAccounts)
        ensures
            locked@ == self@.locked_accounts,
    {
        &self.locked_accounts
    }

    /// Locks the account `username`.
    pub fn lock_account(&mut self, username: String)
        ensures
            final(self)@ == (SimulatorView {
                locked_accounts: if old(self)@.locked_accounts.contains(username@) {
                    old(self)@.locked_accounts
                } else {
                    old(self)@.locked_accounts.push(username@)
                },
                ..old(self)@
            }),
    {
        self.locked_accounts.lock(username);
    }

    /// The number of hours from the start of the run to its end.
    pub fn get_hour_range(&self) -> (result: Result<u64, ErrorKind>)
        ensures
            result == hour_range_of(self@.start_date, self@.days),
    {
        let start = match parse_start(self.start_date) {
            Ok(start) => start,
            Err(error) => {
                return Err(error);
            },
        };
        hour_range(start, self.days)
    }

    /// The times at which the hours of the run begin, from its start to its
    /// end, the hour that begins at its end included.
    pub fn hour_starts(&self) -> (result: Result<Vec<i64>, ErrorKind>)
        ensures
            match hour_range_of(self@.start_date, self@.days) {
                Err(error) => result == Err::<Vec<i64>, ErrorKind>(error),
                Ok(hours) => {
                    &&& result matches Ok(starts)
                    &&& starts@.len() == hours + 1
                    &&& forall|k: int|
                        0 <= k < starts@.len() ==> is_timestamp(#[trigger] starts@[k] as int)
                            && starts@[k] == start_of(self@.start_date).unwrap() + k
                            * SECONDS_PER_HOUR
                },
            },
    {
        let hours = match self.get_hour_range() {
            Ok(hours) => hours,
            Err(error) => {
                return Err(error);
            },
        };
        let start = match parse_start(self.start_date) {
            Ok(start) => start,
            Err(error) => {
                return Err(error);
            },
        };
        let mut starts: Vec<i64> = Vec::new();
        let mut offset: u64 = 0;
        while offset <= hours
            invariant
                offset <= hours + 1,
                hour_range_of(self@.start_date, self@.days) == Ok::<u64, ErrorKind>(hours),
                start_of(self@.start_date) == Ok::<i64, ErrorKind>(start),
                starts@.len() == offset,
                forall|k: int|
                    0 <= k < starts@.len() ==> is_timestamp(#[trigger] starts@[k] as int)
                        && starts@[k] == start + k * SECONDS_PER_HOUR,
            decreases hours + 1 - offset,
        {
            starts.push(start + (offset as i64) * SECONDS_PER_HOUR);
            offset += 1;
        }
        Ok(starts)
    }

    /// A distorted variant of `username`: one character left out, or one
    /// lowercase letter put in, at a random place that is not the last.
    /// A name of fewer than two characters has no such variant.
    pub fn distort_username(&mut self, username: String) -> (result: Result<String, ErrorKind>)
        ensures
            final(self)@ == old(self)@,
            result is Err <==> username@.len() < 2,
            result matches Err(error) ==> error == ErrorKind::InvalidInput,
            result matches Ok(name) ==> {
                &&& exists|distortion: Distortion|
                    can_distort(username@, distortion) && name@ == #[trigger] distorted(
                        username@,
                        distortion,
                    )
                &&& name@.len() == username@.len() + 1 || name@.len() == username@.len() - 1
                &&& one_edit_apart(username@, name@)
                &&& name@ != username@
            },
    {
        let length = username.as_str().unicode_len();
        if length < 2 {
            return Err(ErrorKind::InvalidInput);
        }
        let distortion = draw_distortion(&mut self.rng, length);
        proof {
            lemma_distortion_is_one_edit(username@, distortion);
        }
        distort(username.as_str(), distortion)
    }

    /// One episode of tries to log in as `username` from `source_ip`, the
    /// first try one second after `when`: as many tries as the schedule
    /// `success_likelihoods` is long, three at most. In each try the name is
    /// typed with a mistake with probability one less `username_accuracy`,
    /// unless the try before it fell back to the exact name. A locked account
    /// ends the episode; a name that does not exist fails, and with
    /// probability `username_accuracy` the next try falls back to the exact
    /// name; a name that exists succeeds with the try's likelihood, which
    /// ends the episode, or fails for the password. Every try is logged.
    /// After the episode, with one chance in two, the account that was locked
    /// last is released. Returns the time of the last try.
    pub fn attempt_login(
        &mut self,
        when: i64,
        source_ip: &String,
        username: &String,
        username_accuracy: Probability,
        success_likelihoods: Vec<Probability>,
    ) -> (result: Result<i64, ErrorKind>)
        requires
            old(self).wf(),
            is_timestamp(when as int),
        ensures
            final(self).wf(),
            attempt_outcome(
                old(self)@,
                final(self)@,
                when as int,
                source_ip@,
                username@,
                username_accuracy,
                success_likelihoods@,
                result,
            ),
    {
        let ghost before = self@;
        let ghost episode = before.episode(when as int, source_ip@, username@);
        let length = username.as_str().unicode_len();
        let draws = draw_episode(&mut self.rng, length, username_accuracy, &success_likelihoods);
        let locked = self.locked_accounts.contains(username);
        let outcome = run_episode(self.userbase, locked, when, source_ip, username, &draws);
        proof {
            lemma_episode_records(episode, draws@);
            lemma_episode_runs(episode, draws@);
        }
        match outcome {
            Ok(mut logs) => {
                let made = logs.len();
                let ghost records = log_records(logs@);
                let ghost logged = self.logs@;
                self.logs.append(&mut logs);
                if chance(&mut self.rng, Probability::half()) {
                    self.locked_accounts.release_latest();
                }
                let end = when + made as i64;
                proof {
                    assert(log_records(self.logs@) =~= log_records(logged) + records);
                    assert(self@.logs.skip(before.logs.len() as int) =~= records);
                    assert(self@.logs.take(before.logs.len() as int) =~= before.logs);
                    assert(episode_outcome(before, self@, episode, draws@, Ok(end)));
                    if made > 0 {
                        assert(record_fits(episode, records, made - 1));
                    }
                    assert(self@.attacks == before.attacks);
                    assert forall|k: int| 0 <= k < self@.logs.len() implies (
                    #[trigger] self@.logs[k]).valid() by {
                        if k < before.logs.len() {
                            assert(self@.logs[k] == before.logs[k]);
                        } else {
                            assert(self@.logs[k] == records[k - before.logs.len()]);
                            assert(record_fits(episode, records, k - before.logs.len()));
                        }
                    }
                }
                Ok(end)
            },
            Err(error) => {
                proof {
                    assert(self@.attacks == before.attacks);
                    assert(self@.logs == before.logs);
                    assert(episode_outcome(before, self@, episode, draws@, Err(error)));
                    if error == ErrorKind::InvalidInput {
                        let i = choose|i: int|
                            0 <= i < draws@.len() && (#[trigger] draws@[i]).distortion is Some
                                && !can_distort(username@, draws@[i].distortion.unwrap());
                        assert(draws@[i].distortion is Some);
                    }
                }
                Err(error)
            },
        }
    }
    /// One episode of an attacker's tries to log in as `username`, under the
    /// attackers' schedule of likelihoods.
    pub fn hacker_attempts_login(
        &mut self,
        when: i64,
        source_ip: &String,
        username: &String,
        accuracy: Probability,
    ) -> (result: Result<i64, ErrorKind>)
        requires
            old(self).wf(),
            is_timestamp(when as int),
        ensures
            final(self).wf(),
            attempt_outcome(
                old(self)@,
                final(self)@,
                when as int,
                source_ip@,
                username@,
                accuracy,
                old(self)@.attacker_success_probs,
                result,
            ),
    {
        let schedule = copy_schedule(&self.attacker_success_probs);
        self.attempt_login(when, source_ip, username, accuracy, schedule)
    }

    /// One of the addresses of the user `user_name`, picked at random.
    pub fn get_random_user_ip(&mut self, user_name: &String) -> (ip: String)
        requires
            old(self).wf(),
            old(self)@.names().contains(user_name@),
        ensures
            final(self)@ == old(self)@,
            addresses_of(old(self)@.userbase, user_name@).contains(ip@),
    {
        let pool = self.userbase;
        let found = pool.get(user_name.as_str());
        let addresses = found.unwrap();
        assert(texts(addresses@).len() > 0) by {
            let at = names_of(pool@).index_of(user_name@);
            assert(pool@[at].1.len() > 0);
        }
        let pick = random_below(&mut self.rng, addresses.len());
        assert(texts(addresses@)[pick as int] == addresses@[pick as int]@);
        addresses[pick].clone()
    }

    /// One episode of a legitimate user's tries to log in, from one of the
    /// user's own addresses and under the users' schedule of likelihoods.
    pub fn valid_user_attempts_login(
        &mut self,
        current: i64,
        random_user: String,
        accuracy: Probability,
    ) -> (result: Result<i64, ErrorKind>)
        requires
            old(self).wf(),
            is_timestamp(current as int),
            old(self)@.names().contains(random_user@),
        ensures
            final(self).wf(),
            exists|source_ip: Seq<char>|
                addresses_of(old(self)@.userbase, random_user@).contains(source_ip)
                    && #[trigger] attempt_outcome(
                    old(self)@,
                    final(self)@,
                    current as int,
                    source_ip,
                    random_user@,
                    accuracy,
                    old(self)@.valid_user_success_probs,
                    result,
                ),
    {
        let source_ip = self.get_random_user_ip(&random_user);
        let schedule = copy_schedule(&self.valid_user_success_probs);
        self.attempt_login(current, &source_ip, &random_user, accuracy, schedule)
    }

    /// The users that an attack goes for: with probability
    /// `try_all_users_prob` all of them, else a random number of them, fewer
    /// than all, picked at random. Each is given by its place in the pool,
    /// and none comes twice.
    pub fn choose_targets(&mut self, try_all_users_prob: Probability) -> (targets: Vec<usize>)
        requires
            old(self)@.userbase.len() > 0,
        ensures
            final(self)@ == old(self)@,
            targets@.no_duplicates(),
            forall|k: int| 0 <= k < targets@.len() ==> #[trigger] targets@[k] < old(self)@.userbase.len(),
            targets@.len() <= old(self)@.userbase.len(),
            try_all_users_prob.is_certain() ==> targets@ == positions(old(self)@.userbase.len()),
            try_all_users_prob.is_never() ==> targets@.len() < old(self)@.userbase.len(),
    {
        let users = self.userbase.len();
        let mut everyone: Vec<usize> = Vec::new();
        let mut index: usize = 0;
        while index < users
            invariant
                index <= users,
                everyone@ == positions(index as nat),
            decreases users - index,
        {
            everyone.push(index);
            assert(everyone@ =~= positions((index + 1) as nat));
            index += 1;
        }
        if chance(&mut self.rng, try_all_users_prob) {
            assert(everyone@.no_duplicates());
            everyone
        } else {
            let amount = random_below(&mut self.rng, users);
            let picked = choose_multiple(&mut self.rng, &everyone, amount);
            proof {
                lemma_picked_positions(picked@, users as nat);
            }
            picked
        }
    }

    /// An attack that begins at `when`: the targets are put in a random
    /// order, and each is run through one episode of tries, the next one
    /// beginning where the last one ended. All episodes come from one random
    /// address, or each from a random address of its own where `vary_ips`
    /// is set. `accuracies` gives the attacker's accuracy for each target in
    /// turn. Returns that one address and the time at which the last episode
    /// ended.
    pub fn hack(
        &mut self,
        when: i64,
        user_list: &mut Vec<usize>,
        vary_ips: bool,
        accuracies: &Vec<Probability>,
    ) -> (result: Result<(String, i64), ErrorKind>)
        requires
            old(self).wf(),
            is_timestamp(when as int),
            forall|k: int|
                0 <= k < old(user_list)@.len() ==> #[trigger] old(user_list)@[k] < old(
                    self,
                )@.userbase.len(),
        ensures
            final(self).wf(),
            hack_outcome(
                old(self)@,
                final(self)@,
                when as int,
                old(user_list)@,
                final(user_list)@,
                vary_ips,
                accuracies@,
                result,
            ),
    {
        let ghost before = self@;
        let ghost budget = try_budget(before.attacker_success_probs.len());
        if accuracies.len() < user_list.len() {
            return Err(ErrorKind::InvalidInput);
        }
        let ghost targets = user_list@;
        shuffle(&mut self.rng, user_list);
        proof {
            lemma_same_items(targets, user_list@, before.userbase.len());
        }
        let hacker_ip = get_random_ip(&mut self.rng);
        let logged = self.logs.len();
        let mut last_when = when;
        let mut index: usize = 0;
        let ghost mut states: Seq<SimulatorView> = seq![before];
        let ghost mut addresses: Seq<Seq<char>> = Seq::empty();
        assert(self@.logs.take(before.logs.len() as int) =~= before.logs);
        assert(self@ == before);
        while index < user_list.len()
            invariant
                index <= user_list@.len(),
                before == old(self)@,
                targets == old(user_list)@,
                user_list@.len() == targets.len(),
                user_list@.to_multiset() == targets.to_multiset(),
                user_list@.len() <= accuracies@.len(),
                forall|k: int| 0 <= k < user_list@.len() ==> #[trigger] user_list@[k] < before.userbase.len(),
                self.wf(),
                self@.same_setting(before),
                self@.attacks == before.attacks,
                self@.locked_accounts.is_prefix_of(before.locked_accounts),
                budget == try_budget(before.attacker_success_probs.len()),
                logged == before.logs.len(),
                is_ip_address(hacker_ip@),
                is_timestamp(when as int),
                is_timestamp(last_when as int),
                last_when == when + (self@.logs.len() - before.logs.len()),
                self@.logs.len() - before.logs.len() <= index * budget,
                budget >= 1 ==> self@.logs.len() - before.logs.len() >= index,
                attack_logs_fit(before.logs, self@.logs, before.userbase, when as int, hacker_ip@, vary_ips),
                states.len() == index + 1,
                addresses.len() == index,
                states[0] == before,
                states[index as int] == self@,
                forall|k: int|
                    0 <= k < index ==> #[trigger] attack_step(
                        states,
                        when as int,
                        user_list@,
                        addresses,
                        accuracies@,
                        k,
                    ),
                forall|k: int|
                    0 <= k < index ==> is_ip_address(#[trigger] addresses[k]) && (!vary_ips
                        ==> addresses[k] == hacker_ip@),
            decreases user_list@.len() - index,
        {
            let target = user_list[index];
            let username = self.userbase.username(target).clone();
            let source_ip = if vary_ips {
                get_random_ip(&mut self.rng)
            } else {
                hacker_ip.clone()
            };
            let ghost mid = self@;
            let ghost episode = mid.episode(last_when as int, source_ip@, username@);
            assert(names_of(before.userbase)[target as int] == username@);
            match self.hacker_attempts_login(last_when, &source_ip, &username, accuracies[index]) {
                Ok(end) => {
                    proof {
                        lemma_attack_logs_grow(
                            before.logs,
                            mid.logs,
                            self@.logs,
                            before.userbase,
                            when as int,
                            hacker_ip@,
                            vary_ips,
                            episode,
                            budget,
                            end as int,
                        );
                        assert(self@.logs.len() - before.logs.len() <= (index + 1) * budget)
                            by (nonlinear_arith)
                            requires
                                mid.logs.len() - before.logs.len() <= index * budget,
                                self@.logs.len() - mid.logs.len() <= budget,
                        ;
                        let earlier = states;
                        let sources = addresses;
                        states = states.push(self@);
                        addresses = addresses.push(source_ip@);
                        assert forall|k: int| 0 <= k < index + 1 implies #[trigger] attack_step(
                            states,
                            when as int,
                            user_list@,
                            addresses,
                            accuracies@,
                            k,
                        ) by {
                            if k < index {
                                assert(attack_step(
                                    earlier,
                                    when as int,
                                    user_list@,
                                    sources,
                                    accuracies@,
                                    k,
                                ));
                                assert(states[k] == earlier[k]);
                                assert(states[k + 1] == earlier[k + 1]);
                                assert(addresses[k] == sources[k]);
                            }
                        }
                    }
                    last_when = end;
                },
                Err(error) => {
                    let ghost full = self.logs@;
                    self.logs.truncate(logged);
                    proof {
                        assert(log_records(self.logs@) =~= log_records(full).take(logged as int));
                        assert(self@.logs =~= before.logs);
                        if attack_is_safe(before, when as int, targets.len(), accuracies@.len()) {
                            assert(before.userbase[target as int].0.len() >= 2);
                            assert(last_when + budget <= when + targets.len() * budget)
                                by (nonlinear_arith)
                                requires
                                    last_when <= when + index * budget,
                                    index + 1 <= targets.len(),
                            ;
                            assert(false);
                        }
                    }
                    return Err(error);
                },
            }
            index += 1;
        }
        proof {
            assert(self@.logs.len() - before.logs.len() <= targets.len() * budget)
                by (nonlinear_arith)
                requires
                    self@.logs.len() - before.logs.len() <= index * budget,
                    index == targets.len(),
            ;
            assert(states.last() == self@);
            assert(attack_episodes(
                states,
                when as int,
                user_list@,
                addresses,
                accuracies@,
                hacker_ip@,
                vary_ips,
            ));
            assert(exists|chain: Seq<SimulatorView>, sources: Seq<Seq<char>>|
                chain.len() > 0 && chain[0] == before && chain.last() == self@
                    && #[trigger] attack_episodes(
                    chain,
                    when as int,
                    user_list@,
                    sources,
                    accuracies@,
                    hacker_ip@,
                    vary_ips,
                ));
            let outcome: Result<(String, i64), ErrorKind> = Ok((hacker_ip, last_when));
            assert(outcome matches Ok((address, end)) && address@ == hacker_ip@ && end == last_when);
            assert(hack_outcome(
                before,
                self@,
                when as int,
                targets,
                user_list@,
                vary_ips,
                accuracies@,
                outcome,
            ));
        }
        Ok((hacker_ip, last_when))
    }
    /// Takes the entries back to their first `logged` log entries and their
    /// first `attacked` attack entries.
    fn rollback(&mut self, logged: usize, attacked: usize)
        requires
            old(self).wf(),
            logged <= old(self)@.logs.len(),
            attacked <= old(self)@.attacks.len(),
        ensures
            final(self).wf(),
            final(self)@ == (SimulatorView {
                logs: old(self)@.logs.take(logged as int),
                attacks: old(self)@.attacks.take(attacked as int),
                ..old(self)@
            }),
    {
        let ghost before = self@;
        let ghost logs = self.logs@;
        let ghost attacks = self.attacks@;
        self.logs.truncate(logged);
        self.attacks.truncate(attacked);
        proof {
            assert(log_records(self.logs@) =~= log_records(logs).take(logged as int));
            assert(attack_records(self.attacks@) =~= attack_records(attacks).take(attacked as int));
            assert forall|k: int| 0 <= k < self@.logs.len() implies (#[trigger] self@.logs[k]).valid() by {
                assert(self@.logs[k] == before.logs[k]);
            }
            assert forall|k: int| 0 <= k < self@.attacks.len() implies (
            #[trigger] self@.attacks[k]).valid() by {
                assert(self@.attacks[k] == before.attacks[k]);
            }
        }
    }

    /// One hour of the run, beginning at `current`. With probability
    /// `attack_prob` an attack is made: it starts a random number of whole
    /// minutes, fewer than sixty, into the hour, goes for the users that
    /// `choose_targets` picks, and is entered with its start, its end and its
    /// address. Then one user is picked at random for the hour, and for each
    /// arrival of `samples` the clock moves on by the arrival's gap and the
    /// user goes through one episode of tries. An hour that fails leaves the
    /// entries as they were.
    pub fn simulate_hour(
        &mut self,
        current: i64,
        attack_prob: Probability,
        try_all_users_prob: Probability,
        vary_ips: bool,
        samples: &HourSamples,
    ) -> (result: Result<(), ErrorKind>)
        requires
            old(self).wf(),
            is_timestamp(current as int),
        ensures
            final(self).wf(),
            hour_outcome(
                old(self)@,
                final(self)@,
                current as int,
                attack_prob,
                try_all_users_prob,
                vary_ips,
                *samples,
                result,
            ),
    {
        let ghost before = self@;
        let users = self.userbase.len();
        if users == 0 {
            return Err(ErrorKind::InvalidInput);
        }
        let logged = self.logs.len();
        let attacked = self.attacks.len();
        assert(self@.logs.take(logged as int) =~= before.logs);
        assert(self@.attacks.take(attacked as int) =~= before.attacks);
        if chance(&mut self.rng, attack_prob) {
            let minutes = random_below(&mut self.rng, 60);
            let attack_start = match advance(current, (minutes as u64) * 60) {
                Ok(moment) => moment,
                Err(error) => {
                    return Err(error);
                },
            };
            let mut targets = self.choose_targets(try_all_users_prob);
            let ghost chosen = targets@;
            proof {
                if hour_is_safe(before, current as int, *samples) {
                    let budget = try_budget(before.attacker_success_probs.len());
                    assert(attack_start + chosen.len() * budget <= current + 59 * 60 + users * budget)
                        by (nonlinear_arith)
                        requires
                            attack_start <= current + 59 * 60,
                            chosen.len() <= users,
                    ;
                    assert(attack_is_safe(
                        before,
                        attack_start as int,
                        chosen.len(),
                        samples.attacker_accuracies@.len(),
                    ));
                }
            }
            match self.hack(attack_start, &mut targets, vary_ips, &samples.attacker_accuracies) {
                Ok((source_ip, end)) => {
                    let ghost fought = self@;
                    let ghost entries = self.attacks@;
                    let attack = Attack::new(attack_start, end, source_ip);
                    self.attacks.push(attack);
                    proof {
                        assert(attack_records(self.attacks@) =~= attack_records(entries).push(attack@));
                        assert(self@.attacks.drop_last() =~= before.attacks);
                        assert forall|k: int| 0 <= k < self@.attacks.len() implies (
                        #[trigger] self@.attacks[k]).valid() by {
                            if k < before.attacks.len() {
                                assert(self@.attacks[k] == before.attacks[k]);
                            }
                        }
                        lemma_attack_logs_in_run(
                            before.logs,
                            before.logs,
                            self@.logs,
                            before.userbase,
                            current as int,
                            attack_start as int,
                            source_ip@,
                            vary_ips,
                        );
                        assert(attack_made(
                            before,
                            self@,
                            current as int,
                            try_all_users_prob,
                            vary_ips,
                            samples.attacker_accuracies@,
                            minutes as int,
                            chosen,
                            targets@,
                            fought,
                            (source_ip, end),
                        ));
                    }
                },
                Err(error) => {
                    return Err(error);
                },
            }
        }
        let ghost settled = self@;
        assert(hour_attack(
            before,
            settled,
            current as int,
            attack_prob,
            try_all_users_prob,
            vary_ips,
            samples.attacker_accuracies@,
        ));
        let random_user = random_below(&mut self.rng, users);
        let username = self.userbase.username(random_user).clone();
        let mut now = current;
        let mut index: usize = 0;
        let ghost mut states: Seq<SimulatorView> = seq![settled];
        let ghost mut times: Seq<int> = seq![current as int];
        let ghost mut addresses: Seq<Seq<char>> = Seq::empty();
        assert(names_of(before.userbase)[random_user as int] == username@);
        while index < samples.arrivals.len()
            invariant
                index <= samples.arrivals@.len(),
                before == old(self)@,
                self.wf(),
                self@.same_setting(before),
                self@.locked_accounts.is_prefix_of(before.locked_accounts),
                before.names().contains(username@),
                random_user < before.userbase.len(),
                before.names()[random_user as int] == username@,
                logged == before.logs.len(),
                attacked == before.attacks.len(),
                self@.attacks == settled.attacks,
                settled.same_setting(before),
                settled.attacks.take(attacked as int) == before.attacks,
                settled.attacks == before.attacks || (settled.attacks.len() == before.attacks.len()
                    + 1 && settled.attacks.drop_last() == before.attacks && attack_in_hour(
                    settled.attacks.last(),
                    current as int,
                )),
                is_timestamp(current as int),
                is_timestamp(now as int),
                current <= now,
                now <= current + arrivals_span(
                    samples.arrivals@.take(index as int),
                    try_budget(before.valid_user_success_probs.len()),
                ),
                logs_extended(before.logs, self@.logs, before.userbase, current as int),
                states.len() == index + 1,
                times.len() == index + 1,
                addresses.len() == index,
                states[0] == settled,
                states[index as int] == self@,
                times[0] == current,
                times[index as int] == now,
                forall|k: int|
                    0 <= k < index ==> #[trigger] arrival_step(
                        states,
                        times,
                        username@,
                        addresses,
                        samples.arrivals@,
                        k,
                    ),
            decreases samples.arrivals@.len() - index,
        {
            let arrival = samples.arrivals[index];
            let gap = (arrival.gap_minutes as u64) * 60;
            let ghost budget = try_budget(before.valid_user_success_probs.len());
            proof {
                let next = samples.arrivals@.take(index + 1);
                assert(next.drop_last() =~= samples.arrivals@.take(index as int));
                assert(next.last() == arrival);
                lemma_arrivals_span_grows(samples.arrivals@, budget, index + 1);
                assert(now + gap + budget <= current + arrivals_span(next, budget));
            }
            let begins = match advance(now, gap) {
                Ok(moment) => moment,
                Err(error) => {
                    self.rollback(logged, attacked);
                    return Err(error);
                },
            };
            let ghost mid = self@;
            match self.valid_user_attempts_login(begins, username.clone(), arrival.accuracy) {
                Ok(end) => {
                    proof {
                        let source_ip = choose|source_ip: Seq<char>|
                            addresses_of(mid.userbase, username@).contains(source_ip)
                                && #[trigger] attempt_outcome(
                                mid,
                                self@,
                                begins as int,
                                source_ip,
                                username@,
                                arrival.accuracy,
                                mid.valid_user_success_probs,
                                Ok(end),
                            );
                        lemma_address_of_a_user(before.userbase, username@, source_ip);
                        lemma_logs_grow(
                            before.logs,
                            mid.logs,
                            self@.logs,
                            before.userbase,
                            current as int,
                            mid.episode(begins as int, source_ip, username@),
                            try_budget(mid.valid_user_success_probs.len()),
                            end as int,
                        );
                        let earlier = states;
                        let clock = times;
                        let sources = addresses;
                        states = states.push(self@);
                        times = times.push(end as int);
                        addresses = addresses.push(source_ip);
                        assert forall|k: int| 0 <= k < index + 1 implies #[trigger] arrival_step(
                            states,
                            times,
                            username@,
                            addresses,
                            samples.arrivals@,
                            k,
                        ) by {
                            if k < index {
                                assert(arrival_step(
                                    earlier,
                                    clock,
                                    username@,
                                    sources,
                                    samples.arrivals@,
                                    k,
                                ));
                                assert(states[k] == earlier[k]);
                                assert(states[k + 1] == earlier[k + 1]);
                                assert(times[k] == clock[k]);
                                assert(times[k + 1] == clock[k + 1]);
                                assert(addresses[k] == sources[k]);
                            }
                        }
                    }
                    now = end;
                },
                Err(error) => {
                    proof {
                        if hour_is_safe(before, current as int, *samples) {
                            assert(before.userbase[random_user as int].0.len() >= 2);
                            assert(false);
                        }
                    }
                    self.rollback(logged, attacked);
                    return Err(error);
                },
            }
            index += 1;
        }
        proof {
            assert(states.last() == self@);
            assert(hour_arrivals(
                states,
                times,
                current as int,
                username@,
                addresses,
                samples.arrivals@,
            ));
        }
        Ok(())
    }

    /// The whole run: one hour after the other, from the start of the run to
    /// the hour that begins at its end, that hour included. `samples` holds
    /// what was sampled for each of these hours. A run that fails leaves
    /// the entries as they were.
    pub fn simulate(
        &mut self,
        attack_prob: Probability,
        try_all_users_prob: Probability,
        vary_ips: bool,
        samples: &Vec<HourSamples>,
    ) -> (result: Result<(), ErrorKind>)
        requires
            old(self).wf(),
        ensures
            final(self).wf(),
            run_outcome(
                old(self)@,
                final(self)@,
                attack_prob,
                try_all_users_prob,
                vary_ips,
                samples@,
                result,
            ),
    {
        let ghost before = self@;
        let hours = match self.get_hour_range() {
            Ok(hours) => hours,
            Err(error) => {
                return Err(error);
            },
        };
        let start = match parse_start(self.start_date) {
            Ok(start) => start,
            Err(error) => {
                return Err(error);
            },
        };
        if self.userbase.len() == 0 || samples.len() as u64 != hours + 1 {
            proof {
                if run_is_safe(before, samples@) {
                    assert(hour_is_safe(before, start + 0 * SECONDS_PER_HOUR, samples@[0]));
                }
            }
            return Err(ErrorKind::InvalidInput);
        }
        let logged = self.logs.len();
        let attacked = self.attacks.len();
        let mut offset: u64 = 0;
        let ghost mut states: Seq<SimulatorView> = seq![before];
        assert(self@.logs.take(logged as int) =~= before.logs);
        assert(self@.attacks.take(attacked as int) =~= before.attacks);
        while offset <= hours
            invariant
                offset <= hours + 1,
                hours + 1 == samples@.len(),
                before == old(self)@,
                hour_range_of(before.start_date, before.days) == Ok::<u64, ErrorKind>(hours),
                start_of(before.start_date) == Ok::<i64, ErrorKind>(start),
                before.userbase.len() > 0,
                self.wf(),
                self@.same_setting(before),
                self@.locked_accounts.is_prefix_of(before.locked_accounts),
                logged == before.logs.len(),
                attacked == before.attacks.len(),
                logs_extended(before.logs, self@.logs, before.userbase, start as int),
                attacks_extended(before.attacks, self@.attacks, start as int, offset as int),
                states.len() == offset + 1,
                states[0] == before,
                states[offset as int] == self@,
                forall|k: int|
                    0 <= k < offset ==> #[trigger] hour_step(
                        states,
                        start as int,
                        attack_prob,
                        try_all_users_prob,
                        vary_ips,
                        samples@,
                        k,
                    ),
            decreases hours + 1 - offset,
        {
            let current = start + (offset as i64) * SECONDS_PER_HOUR;
            let ghost mid = self@;
            match self.simulate_hour(
                current,
                attack_prob,
                try_all_users_prob,
                vary_ips,
                &samples[offset as usize],
            ) {
                Ok(_) => {
                    proof {
                        lemma_logs_extended_twice(
                            before.logs,
                            mid.logs,
                            self@.logs,
                            before.userbase,
                            start as int,
                            current as int,
                        );
                        lemma_attacks_grow(
                            before.attacks,
                            mid.attacks,
                            self@.attacks,
                            start as int,
                            offset as int,
                        );
                        let earlier = states;
                        states = states.push(self@);
                        assert forall|k: int| 0 <= k < offset + 1 implies #[trigger] hour_step(
                            states,
                            start as int,
                            attack_prob,
                            try_all_users_prob,
                            vary_ips,
                            samples@,
                            k,
                        ) by {
                            if k < offset {
                                assert(hour_step(
                                    earlier,
                                    start as int,
                                    attack_prob,
                                    try_all_users_prob,
                                    vary_ips,
                                    samples@,
                                    k,
                                ));
                                assert(states[k] == earlier[k]);
                                assert(states[k + 1] == earlier[k + 1]);
                            }
                        }
                    }
                },
                Err(error) => {
                    proof {
                        if run_is_safe(before, samples@) {
                            assert(hour_is_safe(before, current as int, samples@[offset as int]));
                            assert(hour_is_safe(mid, current as int, samples@[offset as int]));
                        }
                    }
                    self.rollback(logged, attacked);
                    return Err(error);
                },
            }
            offset += 1;
        }
        proof {
            assert(states.last() == self@);
            assert(run_hours(
                states,
                start as int,
                attack_prob,
                try_all_users_prob,
                vary_ips,
                samples@,
            ));
        }
        Ok(())
    }
}

} // verus!
