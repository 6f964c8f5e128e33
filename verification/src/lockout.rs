use vstd::prelude::*;

verus! {

/// The usernames that are locked, in the order in which they were locked.
pub struct LockedAccounts {
    names: Vec<String>,
}

impl View for LockedAccounts {
    type V = Seq<Seq<char>>;

    closed spec fn view(&self) -> Seq<Seq<char>> {
        self.names@.map_values(|name: String| name@)
    }
}

impl LockedAccounts {
    /// No account is locked.
    pub fn new() -> (locked: LockedAccounts)
        ensures
            locked@ == Seq::<Seq<char>>::empty(),
    {
        let locked = LockedAccounts { names: Vec::new() };
        assert(locked@ =~= Seq::<Seq<char>>::empty());
        locked
    }

    /// The number of locked accounts.
    pub fn len(&self) -> (n: usize)
        ensures
            n == self@.len(),
    {
        self.names.len()
    }

    /// Whether `username` is locked.
    pub fn contains(&self, username: &String) -> (locked: bool)
        ensures
            locked == self@.contains(username@),
    {
        let mut index: usize = 0;
        while index < self.names.len()
            invariant
                index <= self.names.len(),
                self@.len() == self.names.len(),
                forall|k: int| 0 <= k < index ==> self@[k] != username@,
            decreases self.names.len() - index,
        {
            assert(self@[index as int] == self.names@[index as int]@);
            if self.names[index] == *username {
                return true;
            }
            index += 1;
        }
        false
    }

    /// Locks `username`. An account that is locked already keeps its place.
    pub fn lock(&mut self, username: String)
        ensures
            final(self)@ == if old(self)@.contains(username@) {
                old(self)@
            } else {
                old(self)@.push(username@)
            },
    {
        if !self.contains(&username) {
            let ghost before = self@;
            self.names.push(username);
            assert(self@ =~= before.push(username@));
        }
    }

    /// Releases the account that was locked last, where there is one.
    pub fn release_latest(&mut self) -> (released: Option<String>)
        ensures
            old(self)@.len() == 0 ==> released is None && final(self)@ == old(self)@,
            old(self)@.len() > 0 ==> released is Some && final(self)@ == old(self)@.drop_last(),
            released matches Some(name) ==> name@ == old(self)@.last(),
    {
        let ghost before = self@;
        let released = self.names.pop();
        proof {
            if before.len() > 0 {
                assert(self@ =~= before.drop_last());
            } else {
                assert(self@ =~= before);
            }
        }
        released
    }
}

} // verus!
