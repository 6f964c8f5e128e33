use vstd::prelude::*;
use rand::rngs::StdRng;
use crate::clock::{is_timestamp, MAX_TIMESTAMP};
use crate::distortion::{
    can_distort,
    distort,
    distorted,
    draw_distortion,
    lemma_distortion_is_one_edit,
    one_edit_apart,
    Distortion,
    Edit,
};
use crate::error::ErrorKind;
use crate::identity::IdentityPool;
use crate::probability::Probability;
use crate::random::chance;
use crate::records::{log_records, FailureReason, Log, LogRecord};

verus! {

/// No episode makes more tries than this.
pub const ATTEMPTS_BEFORE_LOCKOUT: usize = 3;

/// What chance decides for one try of an episode.
#[derive(Debug, Clone, Copy)]
pub struct TryDraws {
    /// The typing mistake made in the name, if one is made.
    pub distortion: Option<Distortion>,
    /// After a name that does not exist: whether the next try goes back to
    /// the exact name.
    pub reverts: bool,
    /// With a name that exists: whether the password is accepted.
    pub succeeds: bool,
}

/// What an episode starts from: the names that exist, whether the target
/// account is locked, the target, the address, and the time before the
/// first try.
pub struct Episode {
    pub known: Seq<Seq<char>>,
    pub locked: bool,
    pub username: Seq<char>,
    pub source_ip: Seq<char>,
    pub when: int,
}

/// The number of tries that a schedule of `schedule_len` likelihoods allows.
pub open spec fn try_budget(schedule_len: nat) -> nat {
    if schedule_len <= ATTEMPTS_BEFORE_LOCKOUT {
        schedule_len
    } else {
        ATTEMPTS_BEFORE_LOCKOUT as nat
    }
}

/// The name typed in a try: the exact one where the try before it reverted
/// to it or no mistake is made, the distorted one otherwise; `InvalidInput`
/// where the mistake cannot be made of the name.
pub open spec fn typed_name(username: Seq<char>, exact: bool, draws: TryDraws) -> Result<
    Seq<char>,
    ErrorKind,
> {
    match draws.distortion {
        Some(distortion) if !exact => if can_distort(username, distortion) {
            Ok(distorted(username, distortion))
        } else {
            Err(ErrorKind::InvalidInput)
        },
        _ => Ok(username),
    }
}

/// How a try ends: refused for a locked account, else for a name that does
/// not exist, else accepted or refused for the password as chance has it.
pub open spec fn try_reason(locked: bool, known: bool, draws: TryDraws) -> Option<FailureReason> {
    if locked {
        Some(FailureReason::AccountLocked)
    } else if !known {
        Some(FailureReason::WrongUsername)
    } else if draws.succeeds {
        None
    } else {
        Some(FailureReason::WrongPassword)
    }
}

/// A success and a locked account end the episode.
pub open spec fn ends_episode(reason: Option<FailureReason>) -> bool {
    reason is None || reason == Some(FailureReason::AccountLocked)
}

/// The records of the tries from `index` on, after `records`, where try
/// `index` types the exact name if `exact` says so. Each try comes one
/// second after the one before it and leaves one record.
pub open spec fn episode_from(
    episode: Episode,
    draws: Seq<TryDraws>,
    index: int,
    exact: bool,
    records: Seq<LogRecord>,
) -> Result<Seq<LogRecord>, ErrorKind>
    decreases draws.len() - index,
{
    if index < 0 || index >= draws.len() {
        Ok(records)
    } else if !is_timestamp(episode.when + index + 1) {
        Err(ErrorKind::InvalidDate)
    } else {
        match typed_name(episode.username, exact, draws[index]) {
            Err(error) => Err(error),
            Ok(typed) => {
                let reason = try_reason(episode.locked, episode.known.contains(typed), draws[index]);
                let record = LogRecord::of(
                    episode.when + index + 1,
                    episode.source_ip,
                    typed,
                    reason,
                );
                if ends_episode(reason) {
                    Ok(records.push(record))
                } else {
                    episode_from(
                        episode,
                        draws,
                        index + 1,
                        reason == Some(FailureReason::WrongUsername) && draws[index].reverts,
                        records.push(record),
                    )
                }
            },
        }
    }
}

/// The records that an episode leaves when chance decides as `draws` says,
/// one try for each entry of `draws` at most.
pub open spec fn episode_records(episode: Episode, draws: Seq<TryDraws>) -> Result<
    Seq<LogRecord>,
    ErrorKind,
> {
    episode_from(episode, draws, 0, false, Seq::empty())
}

/// The record at `index` is one that the episode can leave there: one second
/// after the one before it, from the episode's address, under the target's
/// name or a name one edit from it, and failed for a wrong name or password
/// unless it is the last.
pub open spec fn record_fits(episode: Episode, records: Seq<LogRecord>, index: int) -> bool {
    let record = records[index];
    &&& record.valid()
    &&& record.timestamp == episode.when + index + 1
    &&& record.source_ip == episode.source_ip
    &&& record.username == episode.username || one_edit_apart(episode.username, record.username)
    &&& record.failure_reason == Some(FailureReason::WrongUsername)
        <==> !episode.locked && !episode.known.contains(record.username)
    &&& record.failure_reason == Some(FailureReason::AccountLocked) <==> episode.locked
    &&& index < records.len() - 1 ==> !ends_episode(record.failure_reason)
}

proof fn lemma_episode_from(
    episode: Episode,
    draws: Seq<TryDraws>,
    index: int,
    exact: bool,
    records: Seq<LogRecord>,
)
    requires
        0 <= index <= draws.len(),
        records.len() == index,
        forall|k: int| 0 <= k < index ==> record_fits(episode, records, k) && !ends_episode(
            #[trigger] records[k].failure_reason,
        ),
    ensures
        episode_from(episode, draws, index, exact, records) matches Ok(all) ==> {
            &&& all.len() <= draws.len()
            &&& all.len() >= index
            &&& forall|k: int| 0 <= k < all.len() ==> #[trigger] record_fits(episode, all, k)
            &&& all.len() < draws.len() ==> all.len() > 0 && ends_episode(all.last().failure_reason)
        },
    decreases draws.len() - index,
{
    if index < draws.len() && is_timestamp(episode.when + index + 1) {
        match typed_name(episode.username, exact, draws[index]) {
            Err(_) => {},
            Ok(typed) => {
                if typed != episode.username {
                    lemma_distortion_is_one_edit(episode.username, draws[index].distortion.unwrap());
                }
                let reason = try_reason(episode.locked, episode.known.contains(typed), draws[index]);
                let record = LogRecord::of(
                    episode.when + index + 1,
                    episode.source_ip,
                    typed,
                    reason,
                );
                let next = records.push(record);
                assert forall|k: int| 0 <= k < next.len() implies record_fits(episode, next, k) by {
                    if k < index {
                        assert(record_fits(episode, records, k));
                    }
                }
                if !ends_episode(reason) {
                    lemma_episode_from(
                        episode,
                        draws,
                        index + 1,
                        reason == Some(FailureReason::WrongUsername) && draws[index].reverts,
                        next,
                    );
                }
            },
        }
    }
}

/// What holds of the records that an episode leaves, whatever chance
/// decides: there are no more of them than tries; each comes one second
/// after the one before it, from the episode's address and under the
/// target's name or a name one edit from it; all but the last are failures
/// for a wrong name or a wrong password; and where fewer were left than
/// there were tries, the last is a success or meets a locked account.
pub proof fn lemma_episode_records(episode: Episode, draws: Seq<TryDraws>)
    ensures
        episode_records(episode, draws) matches Ok(records) ==> {
            &&& records.len() <= draws.len()
            &&& forall|k: int| 0 <= k < records.len() ==> #[trigger] record_fits(episode, records, k)
            &&& records.len() < draws.len() ==> records.len() > 0 && ends_episode(
                records.last().failure_reason,
            )
        },
{
    lemma_episode_from(episode, draws, 0, false, Seq::empty());
}

/// An episode never leaves more records than the smaller of three and the
/// length of its schedule of likelihoods.
pub proof fn lemma_episode_bound(episode: Episode, draws: Seq<TryDraws>, schedule_len: nat)
    requires
        draws.len() == try_budget(schedule_len),
    ensures
        episode_records(episode, draws) matches Ok(records) ==> records.len() <= schedule_len
            && records.len() <= ATTEMPTS_BEFORE_LOCKOUT,
{
    lemma_episode_records(episode, draws);
}

/// An episode against an account that is locked when it begins leaves
/// exactly one record, a failure for the locked account. (With no try to
/// make it leaves none.)
pub proof fn lemma_locked_episode(episode: Episode, draws: Seq<TryDraws>)
    requires
        episode.locked,
        draws.len() >= 1,
    ensures
        episode_records(episode, draws) matches Ok(records) ==> {
            &&& records.len() == 1
            &&& !records[0].success
            &&& records[0].failure_reason == Some(FailureReason::AccountLocked)
        },
{
}

proof fn lemma_episode_from_runs(
    episode: Episode,
    draws: Seq<TryDraws>,
    index: int,
    exact: bool,
    records: Seq<LogRecord>,
)
    requires
        is_timestamp(episode.when),
        0 <= index <= draws.len(),
    ensures
        match episode_from(episode, draws, index, exact, records) {
            Ok(_) => true,
            Err(error) => {
                ||| error == ErrorKind::InvalidDate && !is_timestamp(episode.when + draws.len())
                ||| error == ErrorKind::InvalidInput && exists|i: int|
                    0 <= i < draws.len() && (#[trigger] draws[i]).distortion is Some && !can_distort(
                        episode.username,
                        draws[i].distortion.unwrap(),
                    )
            },
        },
    decreases draws.len() - index,
{
    if index < draws.len() && is_timestamp(episode.when + index + 1) {
        match typed_name(episode.username, exact, draws[index]) {
            Err(_) => {
                assert(draws[index].distortion is Some);
            },
            Ok(typed) => {
                let reason = try_reason(episode.locked, episode.known.contains(typed), draws[index]);
                let record = LogRecord::of(
                    episode.when + index + 1,
                    episode.source_ip,
                    typed,
                    reason,
                );
                if !ends_episode(reason) {
                    lemma_episode_from_runs(
                        episode,
                        draws,
                        index + 1,
                        reason == Some(FailureReason::WrongUsername) && draws[index].reverts,
                        records.push(record),
                    );
                }
            },
        }
    }
}

/// An episode that starts at a timestamp is given up for two reasons only:
/// with `InvalidDate`, and then the time after its last possible try is no
/// timestamp; with `InvalidInput`, and then chance asked for a mistake that
/// cannot be made of the name.
pub proof fn lemma_episode_runs(episode: Episode, draws: Seq<TryDraws>)
    requires
        is_timestamp(episode.when),
    ensures
        match episode_records(episode, draws) {
            Ok(_) => true,
            Err(error) => {
                ||| error == ErrorKind::InvalidDate && !is_timestamp(episode.when + draws.len())
                ||| error == ErrorKind::InvalidInput && exists|i: int|
                    0 <= i < draws.len() && (#[trigger] draws[i]).distortion is Some && !can_distort(
                        episode.username,
                        draws[i].distortion.unwrap(),
                    )
            },
        },
{
    lemma_episode_from_runs(episode, draws, 0, false, Seq::empty());
}

/// Runs one episode of tries to log in as `username` from `source_ip`, the
/// first try one second after `when`, with chance decided as `draws` says.
/// Returns the entries of the tries made, in their order.
pub fn run_episode(
    pool: &IdentityPool,
    locked: bool,
    when: i64,
    source_ip: &String,
    username: &String,
    draws: &Vec<TryDraws>,
) -> (result: Result<Vec<Log>, ErrorKind>)
    requires
        is_timestamp(when as int),
    ensures
        match result {
            Ok(logs) => episode_records(
                Episode {
                    known: pool.usernames(),
                    locked,
                    username: username@,
                    source_ip: source_ip@,
                    when: when as int,
                },
                draws@,
            ) == Ok::<Seq<LogRecord>, ErrorKind>(log_records(logs@)),
            Err(error) => episode_records(
                Episode {
                    known: pool.usernames(),
                    locked,
                    username: username@,
                    source_ip: source_ip@,
                    when: when as int,
                },
                draws@,
            ) == Err::<Seq<LogRecord>, ErrorKind>(error),
        },
{
    let ghost episode = Episode {
        known: pool.usernames(),
        locked,
        username: username@,
        source_ip: source_ip@,
        when: when as int,
    };
    let mut logs: Vec<Log> = Vec::new();
    let mut exact = false;
    let mut index: usize = 0;
    assert(log_records(logs@) =~= Seq::<LogRecord>::empty());
    while index < draws.len()
        invariant
            index <= draws.len(),
            is_timestamp(when as int),
            is_timestamp(when + index),
            episode == (Episode {
                known: pool.usernames(),
                locked,
                username: username@,
                source_ip: source_ip@,
                when: when as int,
            }),
            episode_records(episode, draws@) == episode_from(
                episode,
                draws@,
                index as int,
                exact,
                log_records(logs@),
            ),
        decreases draws.len() - index,
    {
        if when + (index as i64) >= MAX_TIMESTAMP {
            return Err(ErrorKind::InvalidDate);
        }
        let now = when + (index as i64) + 1;
        let drawn = draws[index];
        let typed = match drawn.distortion {
            Some(distortion) if !exact => match distort(username.as_str(), distortion) {
                Ok(name) => name,
                Err(error) => {
                    return Err(error);
                },
            },
            _ => username.clone(),
        };
        let known = pool.contains(&typed);
        let reason = if locked {
            Some(FailureReason::AccountLocked)
        } else if !known {
            Some(FailureReason::WrongUsername)
        } else if drawn.succeeds {
            None
        } else {
            Some(FailureReason::WrongPassword)
        };
        let ghost before = log_records(logs@);
        let log = Log::new(now, source_ip.clone(), typed, reason);
        logs.push(log);
        assert(log_records(logs@) =~= before.push(log@));
        match reason {
            None | Some(FailureReason::AccountLocked) => {
                return Ok(logs);
            },
            Some(FailureReason::WrongUsername) => {
                exact = drawn.reverts;
            },
            Some(FailureReason::WrongPassword) => {
                exact = false;
            },
        }
        index += 1;
    }
    Ok(logs)
}

/// `draws` is what chance can decide for an episode against a name of
/// `name_len` characters, typed with accuracy `accuracy`, under the schedule
/// `likelihoods`: one entry for each try of the budget; a mistake that can be
/// made of such a name, where the name is long enough for one; and nothing
/// that a probability of zero or one rules out.
pub open spec fn draws_fit(
    draws: Seq<TryDraws>,
    name_len: nat,
    accuracy: Probability,
    likelihoods: Seq<Probability>,
) -> bool {
    &&& draws.len() == try_budget(likelihoods.len())
    &&& forall|i: int| 0 <= i < draws.len() ==> draw_fits(#[trigger] draws[i], name_len, accuracy, likelihoods[i])
}

/// `drawn` is what chance can decide for a try whose password is accepted
/// with probability `likelihood`.
pub open spec fn draw_fits(
    drawn: TryDraws,
    name_len: nat,
    accuracy: Probability,
    likelihood: Probability,
) -> bool {
    &&& accuracy.is_certain() ==> drawn.distortion is None && drawn.reverts
    &&& accuracy.is_never() ==> drawn.distortion is Some && !drawn.reverts
    &&& likelihood.is_certain() ==> drawn.succeeds
    &&& likelihood.is_never() ==> !drawn.succeeds
    &&& drawn.distortion matches Some(distortion) ==> name_len >= 2 ==> {
        &&& distortion.index < name_len - 1
        &&& distortion.edit matches Edit::Insert(letter) ==> 'a' <= letter <= 'z'
    }
}

/// Draws what chance decides for one episode: for each try of the budget,
/// with probability one less `accuracy` a typing mistake, with probability
/// `accuracy` the return to the exact name after an unknown one, and with the
/// try's likelihood the success of the password.
pub fn draw_episode(
    rng: &mut StdRng,
    name_len: usize,
    accuracy: Probability,
    likelihoods: &Vec<Probability>,
) -> (draws: Vec<TryDraws>)
    ensures
        draws_fit(draws@, name_len as nat, accuracy, likelihoods@),
{
    let tries = if likelihoods.len() <= ATTEMPTS_BEFORE_LOCKOUT {
        likelihoods.len()
    } else {
        ATTEMPTS_BEFORE_LOCKOUT
    };
    let mut draws: Vec<TryDraws> = Vec::new();
    let mut index: usize = 0;
    while index < tries
        invariant
            index <= tries,
            tries == try_budget(likelihoods@.len()),
            draws@.len() == index,
            forall|i: int|
                0 <= i < index ==> draw_fits(
                    #[trigger] draws@[i],
                    name_len as nat,
                    accuracy,
                    likelihoods@[i],
                ),
        decreases tries - index,
    {
        let mistaken = chance(rng, accuracy.complement());
        let distortion = if !mistaken {
            None
        } else if name_len >= 2 {
            Some(draw_distortion(rng, name_len))
        } else {
            Some(Distortion { index: 0, edit: Edit::Delete })
        };
        let reverts = chance(rng, accuracy);
        let succeeds = chance(rng, likelihoods[index]);
        draws.push(TryDraws { distortion, reverts, succeeds });
        index += 1;
    }
    draws
}

} // verus!
