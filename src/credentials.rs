//! The credential store: usernames and their Argon2 password hashes, with
//! check-or-create semantics. Persisting the store is the caller's part.
use vstd::prelude::*;

use argon2::password_hash::{Salt, SaltString};
use argon2::{Argon2, PasswordHash, PasswordHasher, PasswordVerifier};
use rand::rngs::OsRng;
use rand::RngCore;

verus! {

/// The PHC string that Argon2 (default parameters) gives for `password`
/// with the base64 salt `salt`, or `None` where it refuses them.
pub uninterp spec fn argon2_phc(password: Seq<char>, salt: Seq<char>) -> Option<Seq<char>>;

/// Whether Argon2 accepts `password` against the PHC string `hash`, or
/// `None` where `hash` is no valid PHC string.
pub uninterp spec fn argon2_verdict(password: Seq<char>, hash: Seq<char>) -> Option<bool>;

/// Relies on rand's OsRng::try_fill_bytes, the operating system's
/// generator, and password_hash::SaltString::encode_b64: a fresh random
/// base64 salt, or `None` where either fails. Nothing is claimed of its
/// value.
#[verifier::external_body]
fn fresh_salt() -> (r: Option<String>) {
    let mut bytes = [0u8; Salt::RECOMMENDED_LENGTH];
    if OsRng.try_fill_bytes(&mut bytes).is_err() {
        return None;
    }
    match SaltString::encode_b64(&bytes) {
        Ok(s) => Some(s.as_str().to_owned()),
        Err(_) => None,
    }
}

/// Relies on argon2's PasswordHasher::hash_password (default parameters)
/// after SaltString::from_b64: the PHC string depends on the password and
/// the salt alone.
#[verifier::external_body]
fn hash_password(password: &str, salt: &str) -> (r: Option<String>)
    ensures
        match r {
            Some(h) => argon2_phc(password@, salt@) == Some(h@),
            None => argon2_phc(password@, salt@) is None,
        },
{
    let salt = match SaltString::from_b64(salt) {
        Ok(s) => s,
        Err(_) => return None,
    };
    match Argon2::default().hash_password(password.as_bytes(), &salt) {
        Ok(h) => Some(h.to_string()),
        Err(_) => None,
    }
}

/// Relies on password_hash::PasswordHash::new and argon2's
/// PasswordVerifier::verify_password: the verdict depends on the password
/// and the stored PHC string alone.
#[verifier::external_body]
fn verify_password(password: &str, hash: &str) -> (r: Option<bool>)
    ensures
        r == argon2_verdict(password@, hash@),
{
    match PasswordHash::new(hash) {
        Ok(h) => Some(Argon2::default().verify_password(password.as_bytes(), &h).is_ok()),
        Err(_) => None,
    }
}

/// The outcome of a credential check.
#[derive(Debug, Clone, Copy, PartialEq, Eq)]
pub enum CredentialCheck {
    /// The user exists; the password matched or not.
    Verified(bool),
    /// The user did not exist and was created with this password; the
    /// store must be persisted before success is reported.
    Created,
}

#[derive(Debug, Clone, Copy, PartialEq, Eq)]
pub enum CredentialError {
    /// The stored hash of the user is no valid PHC string.
    InvalidStoredHash,
    /// Hashing the new password failed.
    HashingFailed,
    /// No random salt could be drawn for a new user.
    SaltUnavailable,
}

/// The map that inserting `entries` in order gives (a later entry for a
/// username wins).
pub open spec fn map_of_entries(entries: Seq<(Seq<char>, Seq<char>)>) -> Map<Seq<char>, Seq<char>>
    decreases entries.len(),
{
    if entries.len() == 0 {
        Map::empty()
    } else {
        map_of_entries(entries.drop_last()).insert(entries.last().0, entries.last().1)
    }
}

pub open spec fn entry_views(v: Seq<(String, String)>) -> Seq<(Seq<char>, Seq<char>)> {
    v.map_values(|e: (String, String)| (e.0@, e.1@))
}

pub open spec fn distinct_keys(s: Seq<(Seq<char>, Seq<char>)>) -> bool {
    forall|i: int, j: int| 0 <= i < s.len() && 0 <= j < s.len() && i != j ==> #[trigger] s[i].0 != #[trigger] s[j].0
}

proof fn lemma_map_of_index(s: Seq<(Seq<char>, Seq<char>)>, i: int)
    requires
        distinct_keys(s),
        0 <= i < s.len(),
    ensures
        map_of_entries(s).contains_key(s[i].0),
        map_of_entries(s)[s[i].0] == s[i].1,
    decreases s.len(),
{
    if i < s.len() - 1 {
        let d = s.drop_last();
        assert(distinct_keys(d));
        assert(d[i] == s[i]);
        lemma_map_of_index(d, i);
    }
}

proof fn lemma_map_of_absent(s: Seq<(Seq<char>, Seq<char>)>, k: Seq<char>)
    requires
        forall|j: int| 0 <= j < s.len() ==> #[trigger] s[j].0 != k,
    ensures
        !map_of_entries(s).contains_key(k),
    decreases s.len(),
{
    if s.len() > 0 {
        let d = s.drop_last();
        assert forall|j: int| 0 <= j < d.len() implies #[trigger] d[j].0 != k by {
            assert(d[j] == s[j]);
        }
        lemma_map_of_absent(d, k);
    }
}

proof fn lemma_map_of_update(s: Seq<(Seq<char>, Seq<char>)>, i: int, e: (Seq<char>, Seq<char>))
    requires
        distinct_keys(s),
        0 <= i < s.len(),
        s[i].0 == e.0,
    ensures
        distinct_keys(s.update(i, e)),
        map_of_entries(s.update(i, e)) == map_of_entries(s).insert(e.0, e.1),
    decreases s.len(),
{
    let t = s.update(i, e);
    assert forall|a: int, b: int| 0 <= a < t.len() && 0 <= b < t.len() && a != b implies #[trigger] t[a].0
        != #[trigger] t[b].0 by {
        assert(s[a].0 != s[b].0);
    }
    let d = s.drop_last();
    assert(distinct_keys(d));
    if i == s.len() - 1 {
        assert(t.drop_last() =~= d);
        assert(map_of_entries(t) =~= map_of_entries(s).insert(e.0, e.1));
    } else {
        assert(t.drop_last() =~= d.update(i, e));
        assert(d[i] == s[i]);
        lemma_map_of_update(d, i, e);
        assert(s.last().0 != e.0);
        assert(map_of_entries(t) =~= map_of_entries(s).insert(e.0, e.1));
    }
}

proof fn lemma_map_of_remove(s: Seq<(Seq<char>, Seq<char>)>, i: int)
    requires
        distinct_keys(s),
        0 <= i < s.len(),
    ensures
        distinct_keys(s.remove(i)),
        map_of_entries(s.remove(i)) == map_of_entries(s).remove(s[i].0),
    decreases s.len(),
{
    let t = s.remove(i);
    assert forall|a: int, b: int| 0 <= a < t.len() && 0 <= b < t.len() && a != b implies #[trigger] t[a].0
        != #[trigger] t[b].0 by {
        let a2 = if a < i { a } else { a + 1 };
        let b2 = if b < i { b } else { b + 1 };
        assert(t[a] == s[a2] && t[b] == s[b2]);
        assert(s[a2].0 != s[b2].0);
    }
    let d = s.drop_last();
    assert(distinct_keys(d));
    let k = s[i].0;
    if i == s.len() - 1 {
        assert(t =~= d);
        assert forall|j: int| 0 <= j < d.len() implies #[trigger] d[j].0 != k by {
            assert(d[j] == s[j]);
            assert(s[j].0 != s[i].0);
        }
        lemma_map_of_absent(d, k);
        assert(map_of_entries(t) =~= map_of_entries(s).remove(k));
    } else {
        assert(t.drop_last() =~= d.remove(i));
        assert(t.last() == s.last());
        assert(d[i] == s[i]);
        lemma_map_of_remove(d, i);
        assert(s.last().0 != k);
        assert(map_of_entries(t) =~= map_of_entries(s).remove(k));
    }
}

pub struct UserManager {
    /// Username and PHC hash, one entry per username.
    users: Vec<(String, String)>,
}

impl View for UserManager {
    type V = Map<Seq<char>, Seq<char>>;

    closed spec fn view(&self) -> Map<Seq<char>, Seq<char>> {
        map_of_entries(entry_views(self.users@))
    }
}

impl UserManager {
    pub closed spec fn wf(&self) -> bool {
        distinct_keys(entry_views(self.users@))
    }

    /// An empty store.
    pub fn new() -> (r: Self)
        ensures
            r.wf(),
            r@ == Map::<Seq<char>, Seq<char>>::empty(),
    {
        let r = UserManager { users: Vec::new() };
        assert(entry_views(r.users@) =~= seq![]);
        r
    }

    /// A store holding `entries`, a later entry for a username replacing
    /// an earlier one.
    pub fn new_from_entries(entries: Vec<(String, String)>) -> (r: Self)
        ensures
            r.wf(),
            r@ == map_of_entries(entry_views(entries@)),
    {
        let mut r = UserManager::new();
        let ghost all = entry_views(entries@);
        let mut i: usize = 0;
        while i < entries.len()
            invariant
                i <= entries@.len(),
                all == entry_views(entries@),
                r.wf(),
                r@ == map_of_entries(all.take(i as int)),
            decreases entries@.len() - i,
        {
            let (u, h) = &entries[i];
            assert(all.take(i + 1).drop_last() =~= all.take(i as int));
            assert(all[i as int] == (u@, h@));
            r.insert_user(u.clone(), h.clone());
            i = i + 1;
        }
        assert(all.take(i as int) =~= all);
        r
    }

    /// The stored hash of `username`, if it is known.
    pub fn lookup(&self, username: &String) -> (r: Option<&String>)
        requires
            self.wf(),
        ensures
            match r {
                Some(h) => self@.contains_key(username@) && self@[username@] == h@,
                None => !self@.contains_key(username@),
            },
    {
        let mut i: usize = 0;
        while i < self.users.len()
            invariant
                i <= self.users@.len(),
                self.wf(),
                forall|j: int| 0 <= j < i ==> #[trigger] self.users@[j].0@ != username@,
            decreases self.users@.len() - i,
        {
            if self.users[i].0.eq(username) {
                assert(entry_views(self.users@)[i as int] == (self.users@[i as int].0@, self.users@[i as int].1@));
                proof {
                    lemma_map_of_index(entry_views(self.users@), i as int);
                }
                return Some(&self.users[i].1);
            }
            i = i + 1;
        }
        assert forall|j: int| 0 <= j < entry_views(self.users@).len() implies #[trigger] entry_views(self.users@)[j].0
            != username@ by {
            assert(self.users@[j].0@ != username@);
        }
        proof {
            lemma_map_of_absent(entry_views(self.users@), username@);
        }
        None
    }

    /// Sets the hash of `username`, adding the user if it is new.
    pub fn insert_user(&mut self, username: String, hash: String)
        requires
            old(self).wf(),
        ensures
            final(self).wf(),
            final(self)@ == old(self)@.insert(username@, hash@),
    {
        let ghost before = entry_views(self.users@);
        let mut i: usize = 0;
        while i < self.users.len()
            invariant
                i <= self.users@.len(),
                entry_views(self.users@) == before,
                distinct_keys(before),
                before == entry_views(old(self).users@),
                forall|j: int| 0 <= j < i ==> #[trigger] self.users@[j].0@ != username@,
            decreases self.users@.len() - i,
        {
            if self.users[i].0.eq(&username) {
                assert(before[i as int] == (self.users@[i as int].0@, self.users@[i as int].1@));
                let ghost e = (username@, hash@);
                self.users.set(i, (username, hash));
                proof {
                    assert(entry_views(self.users@) =~= before.update(i as int, e));
                    lemma_map_of_update(before, i as int, e);
                }
                return;
            }
            i = i + 1;
        }
        let ghost old_users = self.users@;
        self.users.push((username, hash));
        proof {
            let after = entry_views(self.users@);
            assert(after =~= before.push((username@, hash@)));
            assert(after.drop_last() =~= before);
            assert forall|a: int, b: int| 0 <= a < after.len() && 0 <= b < after.len() && a != b implies #[trigger] after[a].0
                != #[trigger] after[b].0 by {
                if a < before.len() && b < before.len() {
                    assert(after[a] == before[a] && after[b] == before[b]);
                } else if a < before.len() {
                    assert(after[a] == before[a]);
                    assert(before[a] == (old_users[a].0@, old_users[a].1@));
                } else if b < before.len() {
                    assert(after[b] == before[b]);
                    assert(before[b] == (old_users[b].0@, old_users[b].1@));
                }
            }
        }
    }

    /// Checks `password` for `username`, drawing a fresh random salt in case
    /// the user is new; see `check_credentials_with_salt`.
    pub fn check_credentials(&mut self, username: &String, password: &String) -> (r: Result<CredentialCheck, CredentialError>)
        requires
            old(self).wf(),
        ensures
            final(self).wf(),
            old(self)@.contains_key(username@) ==> final(self)@ == old(self)@ && r == match argon2_verdict(
                password@,
                old(self)@[username@],
            ) {
                Some(b) => Ok::<CredentialCheck, CredentialError>(CredentialCheck::Verified(b)),
                None => Err(CredentialError::InvalidStoredHash),
            },
            !old(self)@.contains_key(username@) ==> match r {
                Ok(c) => c == CredentialCheck::Created && exists|salt: Seq<char>, h: Seq<char>|
                    argon2_phc(password@, salt) == Some(h) && final(self)@ == old(self)@.insert(username@, h),
                Err(e) => (e == CredentialError::HashingFailed || e == CredentialError::SaltUnavailable)
                    && final(self)@ == old(self)@,
            },
    {
        if self.lookup(username).is_some() {
            return self.check_credentials_with_salt(username, password, &String::new());
        }
        let salt = match fresh_salt() {
            Some(s) => s,
            None => return Err(CredentialError::SaltUnavailable),
        };
        let r = self.check_credentials_with_salt(username, password, &salt);
        proof {
            if r is Ok {
                let h = argon2_phc(password@, salt@)->Some_0;
                assert(argon2_phc(password@, salt@) == Some(h) && self@ == old(self)@.insert(username@, h));
            }
        }
        r
    }

    /// Checks `password` for `username`. A known user is verified against
    /// its stored hash and nothing changes; an unknown user is created with
    /// the hash of `password` under `salt`.
    pub fn check_credentials_with_salt(&mut self, username: &String, password: &String, salt: &String) -> (r: Result<
        CredentialCheck,
        CredentialError,
    >)
        requires
            old(self).wf(),
        ensures
            final(self).wf(),
            old(self)@.contains_key(username@) ==> final(self)@ == old(self)@ && r == match argon2_verdict(
                password@,
                old(self)@[username@],
            ) {
                Some(b) => Ok::<CredentialCheck, CredentialError>(CredentialCheck::Verified(b)),
                None => Err(CredentialError::InvalidStoredHash),
            },
            !old(self)@.contains_key(username@) ==> match argon2_phc(password@, salt@) {
                Some(h) => r == Ok::<CredentialCheck, CredentialError>(CredentialCheck::Created) && final(self)@
                    == old(self)@.insert(username@, h),
                None => r == Err::<CredentialCheck, CredentialError>(CredentialError::HashingFailed) && final(self)@
                    == old(self)@,
            },
    {
        match self.lookup(username) {
            Some(hash) => match verify_password(password.as_str(), hash.as_str()) {
                Some(b) => Ok(CredentialCheck::Verified(b)),
                None => Err(CredentialError::InvalidStoredHash),
            },
            None => match hash_password(password.as_str(), salt.as_str()) {
                Some(h) => {
                    self.insert_user(username.clone(), h);
                    Ok(CredentialCheck::Created)
                },
                None => Err(CredentialError::HashingFailed),
            },
        }
    }

    /// Forgets `username`, if it is known.
    pub fn remove_user(&mut self, username: &String)
        requires
            old(self).wf(),
        ensures
            final(self).wf(),
            final(self)@ == old(self)@.remove(username@),
    {
        let mut i: usize = 0;
        while i < self.users.len()
            invariant
                i <= self.users@.len(),
                self.wf(),
                self.users@ == old(self).users@,
                forall|j: int| 0 <= j < i ==> #[trigger] self.users@[j].0@ != username@,
            decreases self.users@.len() - i,
        {
            if self.users[i].0.eq(username) {
                let ghost before = entry_views(self.users@);
                assert(before[i as int] == (self.users@[i as int].0@, self.users@[i as int].1@));
                let _ = self.users.remove(i);
                proof {
                    assert(entry_views(self.users@) =~= before.remove(i as int));
                    lemma_map_of_remove(before, i as int);
                }
                return;
            }
            i = i + 1;
        }
        assert forall|j: int| 0 <= j < entry_views(self.users@).len() implies #[trigger] entry_views(self.users@)[j].0
            != username@ by {
            assert(self.users@[j].0@ != username@);
        }
        proof {
            lemma_map_of_absent(entry_views(self.users@), username@);
            assert(self@.remove(username@) =~= self@);
        }
    }

    /// The stored users, one `(username, hash)` pair each.
    pub fn entries(&self) -> (r: &Vec<(String, String)>)
        requires
            self.wf(),
        ensures
            map_of_entries(entry_views(r@)) == self@,
            distinct_keys(entry_views(r@)),
    {
        &self.users
    }
}

} // verus!
