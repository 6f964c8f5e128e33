use vstd::prelude::*;
use crate::error::ErrorKind;
use crate::text::texts;

verus! {

/// One user of the pool: a name and the addresses the user logs in from.
pub struct Identity {
    username: String,
    addresses: Vec<String>,
}

/// The users that exist, in the order in which they were added, each with
/// the addresses it is allowed to originate from.
pub struct IdentityPool {
    entries: Vec<Identity>,
}

/// The names of the entries, in their order.
pub open spec fn names_of(entries: Seq<(Seq<char>, Seq<Seq<char>>)>) -> Seq<Seq<char>> {
    entries.map_values(|e: (Seq<char>, Seq<Seq<char>>)| e.0)
}

/// The addresses that the entries give `username`.
pub open spec fn addresses_of(
    entries: Seq<(Seq<char>, Seq<Seq<char>>)>,
    username: Seq<char>,
) -> Seq<Seq<char>> {
    entries[names_of(entries).index_of(username)].1
}

/// The entries after `username` was given `addresses`: in its old place
/// where it was known, at the end where it is new.
pub open spec fn with_entry(
    entries: Seq<(Seq<char>, Seq<Seq<char>>)>,
    username: Seq<char>,
    addresses: Seq<Seq<char>>,
) -> Seq<(Seq<char>, Seq<Seq<char>>)> {
    let names = names_of(entries);
    if names.contains(username) {
        entries.update(names.index_of(username), (username, addresses))
    } else {
        entries.push((username, addresses))
    }
}

impl View for IdentityPool {
    type V = Seq<(Seq<char>, Seq<Seq<char>>)>;

    /// Each user's name with its addresses.
    closed spec fn view(&self) -> Seq<(Seq<char>, Seq<Seq<char>>)> {
        self.entries@.map_values(|e: Identity| (e.username@, texts(e.addresses@)))
    }
}

impl IdentityPool {
    /// No name occurs twice, and every user has an address. Every pool that
    /// `new` and `insert` build is so.
    pub open spec fn wf(&self) -> bool {
        Self::valid(self@)
    }

    /// No name occurs twice, and every user has an address.
    pub open spec fn valid(entries: Seq<(Seq<char>, Seq<Seq<char>>)>) -> bool {
        &&& names_of(entries).no_duplicates()
        &&& forall|i: int| 0 <= i < entries.len() ==> (#[trigger] entries[i]).1.len() > 0
    }

    /// The names, in the order in which they were added.
    pub open spec fn usernames(&self) -> Seq<Seq<char>> {
        names_of(self@)
    }

    /// The addresses of the user at `index`.
    pub open spec fn addresses_at(&self, index: int) -> Seq<Seq<char>> {
        self@[index].1
    }

    /// `username` is the name of a user.
    pub open spec fn has(&self, username: Seq<char>) -> bool {
        self.usernames().contains(username)
    }

    /// A pool without users.
    pub fn new() -> (pool: IdentityPool)
        ensures
            pool@ == Seq::<(Seq<char>, Seq<Seq<char>>)>::empty(),
            pool.wf(),
    {
        let pool = IdentityPool { entries: Vec::new() };
        assert(pool@ =~= Seq::<(Seq<char>, Seq<Seq<char>>)>::empty());
        pool
    }

    /// The number of users.
    pub fn len(&self) -> (n: usize)
        ensures
            n == self@.len(),
    {
        self.entries.len()
    }

    /// The name of the user at `index`.
    pub fn username(&self, index: usize) -> (name: &String)
        requires
            index < self@.len(),
        ensures
            name@ == self.usernames()[index as int],
    {
        &self.entries[index].username
    }

    /// The addresses of the user at `index`: at least one.
    pub fn addresses(&self, index: usize) -> (addresses: &Vec<String>)
        requires
            index < self@.len(),
        ensures
            texts(addresses@) == self.addresses_at(index as int),
    {
        &self.entries[index].addresses
    }

    /// Where `username` stands among the users.
    pub fn position(&self, username: &String) -> (found: Option<usize>)
        ensures
            found is Some <==> self.has(username@),
            found matches Some(index) ==> index < self@.len() && self.usernames()[index as int]
                == username@,
    {
        let mut index: usize = 0;
        while index < self.entries.len()
            invariant
                index <= self.entries.len(),
                self@.len() == self.entries.len(),
                forall|k: int| 0 <= k < index ==> self.usernames()[k] != username@,
            decreases self.entries.len() - index,
        {
            assert(self.usernames()[index as int] == self.entries@[index as int].username@);
            if self.entries[index].username == *username {
                return Some(index);
            }
            index += 1;
        }
        None
    }

    /// Whether `username` is the name of a user.
    pub fn contains(&self, username: &String) -> (known: bool)
        ensures
            known == self.has(username@),
    {
        self.position(username).is_some()
    }

    /// The addresses of the user named `username`.
    pub fn get(&self, username: &str) -> (addresses: Option<&Vec<String>>)
        requires
            self.wf(),
        ensures
            addresses is Some <==> self.has(username@),
            addresses matches Some(found) ==> texts(found@) == addresses_of(self@, username@),
    {
        let name = username.to_owned();
        match self.position(&name) {
            Some(index) => {
                proof {
                    let names = self.usernames();
                    let first = names.index_of(username@);
                    assert(names[first] == username@);
                    assert(first == index);
                }
                Some(self.addresses(index))
            },
            None => None,
        }
    }

    /// Gives `username` the addresses `addresses`: in place of its old ones
    /// where the name is known, as a new user at the end where it is not.
    /// A user without addresses is refused.
    pub fn insert(&mut self, username: String, addresses: Vec<String>) -> (result: Result<
        (),
        ErrorKind,
    >)
        requires
            old(self).wf(),
        ensures
            result is Err <==> addresses@.len() == 0,
            result matches Err(e) ==> e == ErrorKind::InvalidInput && final(self)@ == old(self)@,
            result is Ok ==> final(self)@ == with_entry(old(self)@, username@, texts(addresses@)),
            final(self).wf(),
    {
        if addresses.len() == 0 {
            return Err(ErrorKind::InvalidInput);
        }
        let ghost before = self@;
        let ghost names = self.usernames();
        match self.position(&username) {
            Some(index) => {
                proof {
                    let first = names.index_of(username@);
                    assert(names[first] == username@);
                    assert(first == index);
                }
                self.entries.set(index, Identity { username, addresses });
                proof {
                    assert(self@ =~= before.update(index as int, (username@, texts(addresses@))));
                    assert(self.usernames() =~= names);
                }
            },
            None => {
                self.entries.push(Identity { username, addresses });
                proof {
                    assert(self@ =~= before.push((username@, texts(addresses@))));
                    assert(self.usernames() =~= names.push(username@));
                }
            },
        }
        Ok(())
    }
}

} // verus!
