//! Credential cache and session flag.
//!
//! One privileged credential is validated once by an external probe and
//! then cached for the lifetime of the process, so privileged commands do
//! not re-prompt.  The cache is an explicit object handed to whoever needs
//! it; the boundary decides how it is shared and locked, and treats a
//! failure to reach it as "no credential available".

use vstd::prelude::*;

verus! {

/// A login request: the operator's secret.
pub struct LoginRequest {
    pub password: String,
}

/// A caller's session: whether its owner has authenticated.
pub struct SessionState {
    pub logged_in: bool,
}

/// `true` exactly when the session has been marked authenticated.
pub fn authenticated(session: &SessionState) -> (r: bool)
    ensures
        r == session.logged_in,
{
    session.logged_in
}

/// The key under which the operator's elevation secret is cached.
pub open spec fn sudo_key() -> Seq<char> {
    "sudo_password"@
}

/// The cache contents of an entry list: later entries override earlier
/// ones, as repeated stores do.
pub closed spec fn entries_map(s: Seq<(String, String)>) -> Map<Seq<char>, Seq<char>>
    decreases s.len(),
{
    if s.len() == 0 {
        Map::empty()
    } else {
        entries_map(s.drop_last()).insert(s.last().0@, s.last().1@)
    }
}

proof fn lemma_entries_map_dom(s: Seq<(String, String)>, k: Seq<char>)
    ensures
        entries_map(s).contains_key(k) <==> exists|i: int| 0 <= i < s.len() && s[i].0@ == k,
    decreases s.len(),
{
    if s.len() > 0 {
        lemma_entries_map_dom(s.drop_last(), k);
        if s.last().0@ == k {
            assert(s[s.len() - 1].0@ == k);
        } else if entries_map(s).contains_key(k) {
            let i = choose|i: int| 0 <= i < s.drop_last().len() && s.drop_last()[i].0@ == k;
            assert(s[i].0@ == k);
        } else if exists|i: int| 0 <= i < s.len() && s[i].0@ == k {
            let i = choose|i: int| 0 <= i < s.len() && s[i].0@ == k;
            assert(s.drop_last()[i].0@ == k);
        }
    }
}

proof fn lemma_entries_map_at(s: Seq<(String, String)>, i: int)
    requires
        0 <= i < s.len(),
        forall|p: int, q: int| 0 <= p < q < s.len() ==> s[p].0@ != s[q].0@,
    ensures
        entries_map(s).contains_key(s[i].0@),
        entries_map(s)[s[i].0@] == s[i].1@,
    decreases s.len(),
{
    if i == s.len() - 1 {
    } else {
        assert(s.drop_last()[i] == s[i]);
        lemma_entries_map_at(s.drop_last(), i);
        assert(s[i].0@ != s[s.len() - 1].0@);
    }
}

/// Process-wide store of privileged credentials, validated once and then
/// reused.  Secrets live only in memory and are never rendered.
pub struct CredentialCache {
    entries: Vec<(String, String)>,
}

impl CredentialCache {
    /// No key occurs twice in the backing list.
    pub closed spec fn wf(&self) -> bool {
        forall|p: int, q: int|
            0 <= p < q < self.entries@.len() ==> self.entries@[p].0@ != self.entries@[q].0@
    }

    /// The cache as a map from key to secret.
    pub closed spec fn view(&self) -> Map<Seq<char>, Seq<char>> {
        entries_map(self.entries@)
    }

    /// An empty cache: no credential is available.
    pub fn new() -> (r: CredentialCache)
        ensures
            r.wf(),
            r@ == Map::<Seq<char>, Seq<char>>::empty(),
    {
        CredentialCache { entries: Vec::new() }
    }

    /// Inserts the credential, overwriting any earlier one under the same
    /// key.
    pub fn store(&mut self, key: &String, value: String)
        requires
            old(self).wf(),
        ensures
            final(self).wf(),
            final(self)@ == old(self)@.insert(key@, value@),
    {
        let n = self.entries.len();
        let mut i: usize = 0;
        while i < n
            invariant
                i <= n == self.entries@.len(),
                self == old(self),
                self.wf(),
                forall|j: int| 0 <= j < i ==> self.entries@[j].0@ != key@,
            decreases n - i,
        {
            if self.entries[i].0 == *key {
                let ghost before = self.entries@;
                self.entries[i] = (key.clone(), value);
                assert(self.entries@ =~= before.update(i as int, self.entries@[i as int]));
                assert(self.entries@[i as int].0@ == key@);
                assert(final(self)@ =~= old(self)@.insert(key@, value@)) by {
                    lemma_update_value(before, i as int, key@, value@);
                }
                return ;
            }
            i = i + 1;
        }
        let ghost before = self.entries@;
        self.entries.push((key.clone(), value));
        assert(self.entries@.drop_last() =~= before);
        assert(final(self)@ =~= old(self)@.insert(key@, value@));
    }

    /// The credential stored under `key`, if one is.
    pub fn load(&self, key: &String) -> (r: Option<String>)
        requires
            self.wf(),
        ensures
            match r {
                Some(v) => self@.contains_key(key@) && v@ == self@[key@],
                None => !self@.contains_key(key@),
            },
    {
        let n = self.entries.len();
        let mut i: usize = 0;
        while i < n
            invariant
                i <= n == self.entries@.len(),
                self.wf(),
                self@ == entries_map(self.entries@),
                forall|j: int| 0 <= j < i ==> self.entries@[j].0@ != key@,
            decreases n - i,
        {
            if self.entries[i].0 == *key {
                proof {
                    lemma_entries_map_at(self.entries@, i as int);
                }
                return Some(self.entries[i].1.clone());
            }
            i = i + 1;
        }
        proof {
            lemma_entries_map_dom(self.entries@, key@);
        }
        None
    }
}

proof fn lemma_update_value(s: Seq<(String, String)>, i: int, k: Seq<char>, v: Seq<char>)
    requires
        0 <= i < s.len(),
        s[i].0@ == k,
        forall|p: int, q: int| 0 <= p < q < s.len() ==> s[p].0@ != s[q].0@,
    ensures
        forall|t: (String, String)|
            t.0@ == k && t.1@ == v ==> entries_map(#[trigger] s.update(i, t)) == entries_map(
                s,
            ).insert(k, v),
    decreases s.len(),
{
    assert forall|t: (String, String)| t.0@ == k && t.1@ == v implies entries_map(
        #[trigger] s.update(i, t),
    ) == entries_map(s).insert(k, v) by {
        let u = s.update(i, t);
        if i == s.len() - 1 {
            assert(u.drop_last() =~= s.drop_last());
            assert(u.last() == t);
            assert(entries_map(u) =~= entries_map(s).insert(k, v));
        } else {
            assert(u.drop_last() =~= s.drop_last().update(i, t));
            assert(u.last() == s.last());
            assert(s.drop_last()[i] == s[i]);
            lemma_update_value(s.drop_last(), i, k, v);
            assert(entries_map(u) == entries_map(s.drop_last()).insert(k, v).insert(
                s.last().0@,
                s.last().1@,
            ));
            assert(s[i].0@ != s[s.len() - 1].0@);
            assert(entries_map(u) =~= entries_map(s).insert(k, v));
        }
    }
}

/// The cached elevation secret, if a login has stored one.
pub fn get_stored_password(cache: &CredentialCache) -> (r: Option<String>)
    requires
        cache.wf(),
    ensures
        match r {
            Some(v) => cache@.contains_key(sudo_key()) && v@ == cache@[sudo_key()],
            None => !cache@.contains_key(sudo_key()),
        },
{
    let key = String::from_str("sudo_password");
    cache.load(&key)
}

/// The decision part of a login: the boundary has already run the
/// credential-validation probe; on success the secret is cached and the
/// session is marked authenticated, on failure nothing changes.
pub fn complete_login(
    cache: &mut CredentialCache,
    session: &mut SessionState,
    req: &LoginRequest,
    probe_succeeded: bool,
) -> (ok: bool)
    requires
        old(cache).wf(),
    ensures
        final(cache).wf(),
        ok == probe_succeeded,
        probe_succeeded ==> final(cache)@ == old(cache)@.insert(sudo_key(), req.password@)
            && final(session).logged_in,
        !probe_succeeded ==> final(cache)@ == old(cache)@ && *final(session) == *old(session),
{
    if probe_succeeded {
        let key = String::from_str("sudo_password");
        cache.store(&key, req.password.clone());
        session.logged_in = true;
        true
    } else {
        false
    }
}

/// Law: a credential accepted by the validation probe and stored by
/// [`complete_login`] is exactly the credential that [`get_stored_password`]
/// returns afterwards, whatever the cache held before.
pub proof fn lemma_login_round_trip(before: Map<Seq<char>, Seq<char>>, password: Seq<char>)
    ensures
        before.insert(sudo_key(), password).contains_key(sudo_key()),
        before.insert(sudo_key(), password)[sudo_key()] == password,
{
}

} // verus!
