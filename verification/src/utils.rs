use vstd::prelude::*;
use rand::rngs::StdRng;
use crate::identity::{names_of, IdentityPool};
use crate::random::{random_byte, random_byte_between, seeded_generator};
use crate::text::{ip_text, is_ip_address, texts};
use vstd::string::StringExecFns;

verus! {

/// The seed of the generator that addresses are assigned with.
pub const ADDRESS_SEED: u64 = 13;

/// A random IP address: four random bytes in dotted form.
pub fn get_random_ip(rng: &mut StdRng) -> (ip: String)
    ensures
        is_ip_address(ip@),
{
    let a = random_byte(rng);
    let b = random_byte(rng);
    let c = random_byte(rng);
    let d = random_byte(rng);
    ip_text(a, b, c, d)
}

/// The names of `names` without repetitions, each where it stands first.
pub open spec fn first_occurrences(names: Seq<Seq<char>>) -> Seq<Seq<char>>
    decreases names.len(),
{
    if names.len() == 0 {
        Seq::empty()
    } else {
        let earlier = first_occurrences(names.drop_last());
        if earlier.contains(names.last()) {
            earlier
        } else {
            earlier.push(names.last())
        }
    }
}

/// Every user of the pool has at least one address and at most `max_range`,
/// and each address is an IP address.
pub open spec fn addresses_assigned(pool: Seq<(Seq<char>, Seq<Seq<char>>)>, max_range: nat) -> bool {
    forall|i: int|
        0 <= i < pool.len() ==> {
            let addresses = (#[trigger] pool[i]).1;
            &&& 1 <= addresses.len() <= max_range
            &&& forall|j: int| 0 <= j < addresses.len() ==> is_ip_address(#[trigger] addresses[j])
        }
}

/// Builds the identity pool of `users`: each gets a random number of random
/// IP addresses, at least one and at most `max_range`. A name that comes
/// again gets new addresses and keeps its place.
pub fn assign_ip_address(users: Vec<String>, max_range: u8) -> (user_info: IdentityPool)
    requires
        1 <= max_range < 255,
    ensures
        user_info.wf(),
        user_info.usernames() == first_occurrences(texts(users@)),
        addresses_assigned(user_info@, max_range as nat),
{
    let mut user_info = IdentityPool::new();
    let mut rng = seeded_generator(ADDRESS_SEED);
    let mut index: usize = 0;
    while index < users.len()
        invariant
            index <= users.len(),
            1 <= max_range < 255,
            user_info.wf(),
            user_info.usernames() == first_occurrences(texts(users@).take(index as int)),
            addresses_assigned(user_info@, max_range as nat),
        decreases users.len() - index,
    {
        let count = random_byte_between(&mut rng, 1, max_range + 1);
        let mut addresses: Vec<String> = Vec::new();
        let mut made: u8 = 0;
        while made < count
            invariant
                made <= count,
                addresses@.len() == made,
                forall|j: int| 0 <= j < addresses@.len() ==> is_ip_address(#[trigger] addresses@[j]@),
            decreases count - made,
        {
            let ip = get_random_ip(&mut rng);
            addresses.push(ip);
            made += 1;
        }
        let user = users[index].clone();
        let ghost before = user_info@;
        let ghost names = texts(users@);
        let inserted = user_info.insert(user, addresses);
        proof {
            assert(inserted is Ok);
            let seen = names.take(index as int);
            let upto = names.take(index + 1);
            assert(upto.drop_last() =~= seen);
            assert(upto.last() == user@);
            let entry = (user@, texts(addresses@));
            let old_names = names_of(before);
            if old_names.contains(user@) {
                let at = old_names.index_of(user@);
                assert(user_info@ == before.update(at, entry));
                assert(user_info.usernames() =~= old_names);
            } else {
                assert(user_info@ == before.push(entry));
                assert(user_info.usernames() =~= old_names.push(user@));
            }
            assert forall|i: int| 0 <= i < user_info@.len() implies {
                let assigned = (#[trigger] user_info@[i]).1;
                &&& 1 <= assigned.len() <= max_range
                &&& forall|j: int| 0 <= j < assigned.len() ==> is_ip_address(#[trigger] assigned[j])
            } by {
                if user_info@[i] == entry {
                    assert forall|j: int| 0 <= j < entry.1.len() implies is_ip_address(
                        #[trigger] entry.1[j],
                    ) by {
                        assert(entry.1[j] == addresses@[j]@);
                    }
                } else {
                    assert(user_info@[i] == before[i]);
                }
            }
        }
        index += 1;
    }
    assert(texts(users@).take(index as int) =~= texts(users@));
    user_info
}

/// The lines put together again, with a line feed between each two.
pub open spec fn joined_lines(lines: Seq<Seq<char>>) -> Seq<char>
    decreases lines.len(),
{
    if lines.len() == 0 {
        Seq::empty()
    } else if lines.len() == 1 {
        lines[0]
    } else {
        joined_lines(lines.drop_last()) + seq!['\n'] + lines.last()
    }
}

/// The lines of `text`: what stands between its line feeds, before the first
/// and after the last. Put together again they give `text`, and none of them
/// holds a line feed; so a text without line feeds is one line, and a text
/// that ends in a line feed has an empty last line.
pub fn split_lines(text: &str) -> (lines: Vec<String>)
    ensures
        lines@.len() >= 1,
        joined_lines(texts(lines@)) == text@,
        forall|i: int| 0 <= i < lines@.len() ==> !(#[trigger] texts(lines@)[i]).contains('\n'),
{
    let mut lines: Vec<String> = Vec::new();
    let mut line = String::new();
    for c in it: text.chars()
        invariant
            it.seq() == text@,
            joined_lines(texts(lines@).push(line@)) == text@.take(it.index() as int),
            !line@.contains('\n'),
            forall|i: int| 0 <= i < lines@.len() ==> !(#[trigger] texts(lines@)[i]).contains('\n'),
    {
        let ghost done = texts(lines@);
        let ghost current = line@;
        let ghost seen = text@.take(it.index() as int);
        if c == '\n' {
            lines.push(line);
            line = String::new();
            proof {
                let now = texts(lines@).push(line@);
                assert(texts(lines@) =~= done.push(current));
                assert(now.drop_last() =~= done.push(current));
                assert(text@.take(it.index() + 1) =~= seen + seq!['\n'] + now.last());
            }
        } else {
            line.push(c);
            proof {
                let was = done.push(current);
                let now = done.push(line@);
                assert(texts(lines@) =~= done);
                assert(text@.take(it.index() + 1) =~= seen.push(c));
                if was.len() > 1 {
                    assert(now.drop_last() =~= was.drop_last());
                    assert(joined_lines(now) =~= joined_lines(was).push(c));
                }
                assert forall|k: int| 0 <= k < line@.len() implies line@[k] != '\n' by {
                    if k < current.len() {
                        assert(current.contains(current[k]));
                    }
                }
            }
        }
    }
    proof {
        assert(text@.take(text@.len() as int) =~= text@);
    }
    let ghost done = texts(lines@);
    lines.push(line);
    proof {
        assert(texts(lines@) =~= done.push(line@));
    }
    lines
}

/// The role accounts that exist beside the users named by first and last
/// name.
pub fn role_accounts() -> (roles: Vec<String>)
    ensures
        texts(roles@) == seq!["admin"@, "dba"@, "master"@],
{
    let mut roles: Vec<String> = Vec::new();
    roles.push(String::from_str("admin"));
    roles.push(String::from_str("dba"));
    roles.push(String::from_str("master"));
    assert(texts(roles@) =~= seq!["admin"@, "dba"@, "master"@]);
    roles
}

/// The usernames of a run: every first name followed by every last name,
/// first names in their order and for each the last names in theirs; then
/// the role accounts.
pub open spec fn usernames_of(
    first_names: Seq<Seq<char>>,
    last_names: Seq<Seq<char>>,
    roles: Seq<Seq<char>>,
) -> Seq<Seq<char>> {
    Seq::new(
        first_names.len() * last_names.len(),
        |k: int| first_names[k / last_names.len() as int] + last_names[k % last_names.len() as int],
    ) + roles
}

/// Builds the usernames of a run from the first names and the last names.
pub fn username_universe(first_names: &Vec<String>, last_names: &Vec<String>) -> (users: Vec<String>)
    ensures
        texts(users@) == usernames_of(
            texts(first_names@),
            texts(last_names@),
            seq!["admin"@, "dba"@, "master"@],
        ),
{
    let ghost firsts = texts(first_names@);
    let ghost lasts = texts(last_names@);
    let ghost width = last_names@.len() as int;
    let mut users: Vec<String> = Vec::new();
    let mut i: usize = 0;
    while i < first_names.len()
        invariant
            i <= first_names@.len(),
            firsts == texts(first_names@),
            lasts == texts(last_names@),
            width == last_names@.len(),
            users@.len() == i * width,
            forall|k: int|
                0 <= k < users@.len() ==> (#[trigger] users@[k])@ == firsts[k / width] + lasts[k
                    % width],
        decreases first_names@.len() - i,
    {
        let mut j: usize = 0;
        while j < last_names.len()
            invariant
                i < first_names@.len(),
                j <= last_names@.len(),
                firsts == texts(first_names@),
                lasts == texts(last_names@),
                width == last_names@.len(),
                users@.len() == i * width + j,
                forall|k: int|
                    0 <= k < users@.len() ==> (#[trigger] users@[k])@ == firsts[k / width]
                        + lasts[k % width],
            decreases last_names@.len() - j,
        {
            let mut name = first_names[i].clone();
            name.append(last_names[j].as_str());
            let ghost at = users@.len() as int;
            users.push(name);
            proof {
                assert(at / width == i && at % width == j) by (nonlinear_arith)
                    requires
                        at == i * width + j,
                        0 <= j < width,
                        0 <= i,
                ;
                assert(firsts[i as int] == first_names@[i as int]@);
                assert(lasts[j as int] == last_names@[j as int]@);
            }
            j += 1;
        }
        assert((i + 1) * width == i * width + width) by (nonlinear_arith);
        i += 1;
    }
    let ghost pairs = texts(users@);
    let mut roles = role_accounts();
    let ghost added = texts(roles@);
    let ghost named = users@;
    let ghost role_names = roles@;
    users.append(&mut roles);
    proof {
        assert(users@ == named + role_names);
        assert(texts(users@) =~= pairs + added);
        assert(pairs =~= Seq::new(
            firsts.len() * lasts.len(),
            |k: int| firsts[k / lasts.len() as int] + lasts[k % lasts.len() as int],
        ));
    }
    users
}

} // verus!
