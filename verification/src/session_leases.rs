use vstd::prelude::*;

use crate::source_files::string_views;
use crate::text::{decimal_chars, push_decimal_chars, str_eq};

verus! {

// ---------------------------------------------------------------------------
// Ordering session names
// ---------------------------------------------------------------------------

/// `a` sorts before `b`: lexicographic order on characters. For UTF-8 text this
/// is the order of `str::cmp`, which compares the bytes.
pub open spec fn name_lt(a: Seq<char>, b: Seq<char>) -> bool
    decreases a.len(),
{
    if a.len() == 0 {
        b.len() > 0
    } else if b.len() == 0 {
        false
    } else if a[0] != b[0] {
        (a[0] as int) < (b[0] as int)
    } else {
        name_lt(a.drop_first(), b.drop_first())
    }
}

proof fn lemma_name_lt_irreflexive(a: Seq<char>)
    ensures
        !name_lt(a, a),
    decreases a.len(),
{
    if a.len() > 0 {
        lemma_name_lt_irreflexive(a.drop_first());
    }
}

proof fn lemma_name_lt_transitive(a: Seq<char>, b: Seq<char>, c: Seq<char>)
    requires
        name_lt(a, b),
        name_lt(b, c),
    ensures
        name_lt(a, c),
    decreases a.len(),
{
    if a.len() > 0 && b.len() > 0 && c.len() > 0 && a[0] == b[0] && b[0] == c[0] {
        lemma_name_lt_transitive(a.drop_first(), b.drop_first(), c.drop_first());
    }
}

proof fn lemma_name_lt_total(a: Seq<char>, b: Seq<char>)
    requires
        a != b,
    ensures
        name_lt(a, b) || name_lt(b, a),
    decreases a.len(),
{
    if a.len() > 0 && b.len() > 0 && a[0] == b[0] {
        if a.drop_first() == b.drop_first() {
            assert(a =~= seq![a[0]] + a.drop_first());
            assert(b =~= seq![b[0]] + b.drop_first());
        }
        lemma_name_lt_total(a.drop_first(), b.drop_first());
    } else if a.len() > 0 && b.len() > 0 {
        assert((a[0] as int) != (b[0] as int));
    } else if a.len() == 0 && b.len() == 0 {
        assert(a =~= b);
    }
}

/// Whether `a` sorts before `b`.
fn chars_lt(a: &[char], b: &[char]) -> (r: bool)
    ensures
        r == name_lt(a@, b@),
{
    let mut i: usize = 0;
    proof {
        assert(a@.skip(0) =~= a@);
        assert(b@.skip(0) =~= b@);
    }
    while i < a.len() && i < b.len() && a[i] == b[i]
        invariant
            i <= a@.len(),
            i <= b@.len(),
            name_lt(a@, b@) == name_lt(a@.skip(i as int), b@.skip(i as int)),
        decreases a.len() - i,
    {
        proof {
            assert(a@.skip(i as int).drop_first() =~= a@.skip(i + 1));
            assert(b@.skip(i as int).drop_first() =~= b@.skip(i + 1));
        }
        i = i + 1;
    }
    if i == a.len() {
        i < b.len()
    } else if i == b.len() {
        false
    } else {
        proof {
            assert(a@.skip(i as int)[0] == a@[i as int]);
            assert(b@.skip(i as int)[0] == b@[i as int]);
        }
        a[i] < b[i]
    }
}

/// A strictly increasing list of names.
pub open spec fn strictly_sorted(names: Seq<Seq<char>>) -> bool {
    forall|i: int, j: int| 0 <= i < j < names.len() ==> name_lt(names[i], names[j])
}

// ---------------------------------------------------------------------------
// The lease store
// ---------------------------------------------------------------------------

/// The owner lease of one app-owned session.
pub struct LeaseEntry {
    session_name: String,
    token: u64,
    deadline: u64,
}

/// The owner leases of app-owned sessions: for each leased session, the
/// token of its owner and the time (in milliseconds on the server's monotonic
/// clock) at which the lease runs out. The map is held as a vector of entries
/// with distinct names: vstd gives hash maps a model only for integer keys, and
/// these are keyed by session name.
pub struct SessionLeaseStore {
    entries: Vec<LeaseEntry>,
    next_token: u64,
}

/// The leases of a list of entries, by session name.
spec fn entries_map(entries: Seq<LeaseEntry>) -> Map<Seq<char>, (u64, u64)>
    decreases entries.len(),
{
    if entries.len() == 0 {
        Map::empty()
    } else {
        entries_map(entries.drop_last()).insert(
            entries.last().session_name@,
            (entries.last().token, entries.last().deadline),
        )
    }
}

/// No session has two entries.
spec fn unique_names(entries: Seq<LeaseEntry>) -> bool {
    forall|i: int, j: int|
        0 <= i < j < entries.len() ==> entries[i].session_name@ != entries[j].session_name@
}

proof fn lemma_entries_map(entries: Seq<LeaseEntry>, k: Seq<char>)
    requires
        unique_names(entries),
    ensures
        entries_map(entries).contains_key(k) <==> exists|i: int|
            0 <= i < entries.len() && entries[i].session_name@ == k,
        forall|i: int|
            0 <= i < entries.len() && entries[i].session_name@ == k ==> entries_map(entries)[k] == (
                entries[i].token,
                entries[i].deadline,
            ),
    decreases entries.len(),
{
    if entries.len() > 0 {
        let rest = entries.drop_last();
        assert(unique_names(rest));
        lemma_entries_map(rest, k);
        if exists|i: int| 0 <= i < rest.len() && rest[i].session_name@ == k {
            let i = choose|i: int| 0 <= i < rest.len() && rest[i].session_name@ == k;
            assert(entries[i] == rest[i]);
        }
        assert forall|i: int|
            0 <= i < entries.len() && entries[i].session_name@ == k implies entries_map(entries)[k]
                == (entries[i].token, entries[i].deadline) by {
            if i < entries.len() - 1 {
                assert(entries[i] == rest[i]);
                assert(entries.last().session_name@ != k);
            }
        }
        if entries.last().session_name@ == k {
            assert(entries[entries.len() - 1].session_name@ == k);
        }
        if exists|i: int| 0 <= i < entries.len() && entries[i].session_name@ == k {
            let i = choose|i: int| 0 <= i < entries.len() && entries[i].session_name@ == k;
            if i < entries.len() - 1 {
                assert(rest[i] == entries[i]);
                assert(0 <= i < rest.len() && rest[i].session_name@ == k);
            }
        }
        if entries_map(entries).contains_key(k) && entries.last().session_name@ != k {
            let i = choose|i: int| 0 <= i < rest.len() && rest[i].session_name@ == k;
            assert(entries[i] == rest[i]);
        }
    }
}

proof fn lemma_same_leases(m1: Map<Seq<char>, (u64, u64)>, m2: Map<Seq<char>, (u64, u64)>)
    requires
        forall|k: Seq<char>| #[trigger] m1.contains_key(k) <==> m2.contains_key(k),
        forall|k: Seq<char>| #[trigger] m1.contains_key(k) ==> m1[k] == m2[k],
    ensures
        m1 == m2,
{
    assert(m1 =~= m2);
}

impl SessionLeaseStore {
    /// The leases by session name: owner token and deadline.
    pub closed spec fn leases(&self) -> Map<Seq<char>, (u64, u64)> {
        entries_map(self.entries@)
    }

    /// The last token handed out (zero before the first).
    pub closed spec fn last_token(&self) -> u64 {
        self.next_token
    }

    /// The store's invariant: one entry per session, and no token above the
    /// last one handed out.
    pub closed spec fn wf(&self) -> bool {
        &&& unique_names(self.entries@)
        &&& forall|i: int| 0 <= i < self.entries@.len() ==> self.entries@[i].token <= self.next_token
    }

    proof fn lemma_view(&self, k: Seq<char>)
        requires
            self.wf(),
        ensures
            self.leases().contains_key(k) <==> exists|i: int|
                0 <= i < self.entries@.len() && self.entries@[i].session_name@ == k,
            forall|i: int|
                0 <= i < self.entries@.len() && self.entries@[i].session_name@ == k
                    ==> self.leases()[k] == (self.entries@[i].token, self.entries@[i].deadline),
    {
        lemma_entries_map(self.entries@, k);
    }

    /// The tokens of the store never exceed the last one handed out.
    pub proof fn lemma_tokens_bounded(&self, k: Seq<char>)
        requires
            self.wf(),
            self.leases().contains_key(k),
        ensures
            self.leases()[k].0 <= self.last_token(),
    {
        self.lemma_view(k);
        let i = choose|i: int| 0 <= i < self.entries@.len() && self.entries@[i].session_name@ == k;
    }

    /// An empty store.
    pub fn new() -> (store: Self)
        ensures
            store.wf(),
            store.leases() == Map::<Seq<char>, (u64, u64)>::empty(),
            store.last_token() == 0,
    {
        SessionLeaseStore { entries: Vec::new(), next_token: 0 }
    }

    fn find(&self, session_name: &str) -> (r: Option<usize>)
        requires
            self.wf(),
        ensures
            match r {
                Some(i) => i < self.entries@.len() && self.entries@[i as int].session_name@
                    == session_name@,
                None => !self.leases().contains_key(session_name@),
            },
    {
        let mut i: usize = 0;
        while i < self.entries.len()
            invariant
                i <= self.entries@.len(),
                forall|j: int| 0 <= j < i ==> self.entries@[j].session_name@ != session_name@,
            decreases self.entries.len() - i,
        {
            if str_eq(self.entries[i].session_name.as_str(), session_name) {
                return Some(i);
            }
            i = i + 1;
        }
        proof {
            self.lemma_view(session_name@);
        }
        None
    }

    /// Gives `session_name` a new lease that runs out `ttl` milliseconds after
    /// `now`, replacing any lease it had, and returns the new owner token: the
    /// one after the last, or the largest token once they run out.
    pub fn create(&mut self, session_name: String, ttl: u64, now: u64) -> (token: u64)
        requires
            old(self).wf(),
            now + ttl <= u64::MAX,
        ensures
            final(self).wf(),
            token == (if old(self).last_token() < u64::MAX {
                old(self).last_token() + 1
            } else {
                u64::MAX as int
            }),
            final(self).last_token() == token,
            final(self).leases() == old(self).leases().insert(session_name@, (token, (now + ttl) as u64)),
    {
        let bumped = self.next_token.saturating_add(1);
        let token = if bumped < 1 {
            1
        } else {
            bumped
        };
        self.next_token = token;
        let deadline = now + ttl;
        let ghost old_entries = self.entries@;
        let ghost name = session_name@;
        match self.find(session_name.as_str()) {
            Some(i) => {
                self.entries.set(i, LeaseEntry { session_name, token, deadline });
                proof {
                    assert(unique_names(self.entries@)) by {
                        assert forall|a: int, b: int|
                            0 <= a < b < self.entries@.len() implies self.entries@[a].session_name@
                            != self.entries@[b].session_name@ by {
                            if a != i && b != i {
                                assert(self.entries@[a] == old_entries[a]);
                                assert(self.entries@[b] == old_entries[b]);
                            } else if a == i {
                                assert(self.entries@[b] == old_entries[b]);
                            } else {
                                assert(self.entries@[a] == old_entries[a]);
                            }
                        }
                    }
                    assert forall|k: Seq<char>| #[trigger] self.leases().contains_key(k) <==> old(self).leases().insert(name, (token, deadline)).contains_key(k) by {
                        self.lemma_view(k);
                        old(self).lemma_view(k);
                        if k != name {
                            if exists|j: int| 0 <= j < old_entries.len() && old_entries[j].session_name@ == k {
                                let j = choose|j: int| 0 <= j < old_entries.len() && old_entries[j].session_name@ == k;
                                assert(self.entries@[j] == old_entries[j]);
                            }
                            if exists|j: int| 0 <= j < self.entries@.len() && self.entries@[j].session_name@ == k {
                                let j = choose|j: int| 0 <= j < self.entries@.len() && self.entries@[j].session_name@ == k;
                                assert(self.entries@[j] == old_entries[j]);
                            }
                        } else {
                            assert(self.entries@[i as int].session_name@ == k);
                        }
                    }
            assert forall|k: Seq<char>| #[trigger] self.leases().contains_key(k) implies self.leases()[k] == old(self).leases().insert(name, (token, deadline))[k] by {
                        self.lemma_view(k);
                        old(self).lemma_view(k);
                        if k != name {
                            if exists|j: int| 0 <= j < old_entries.len() && old_entries[j].session_name@ == k {
                                let j = choose|j: int| 0 <= j < old_entries.len() && old_entries[j].session_name@ == k;
                                assert(self.entries@[j] == old_entries[j]);
                            }
                            if exists|j: int| 0 <= j < self.entries@.len() && self.entries@[j].session_name@ == k {
                                let j = choose|j: int| 0 <= j < self.entries@.len() && self.entries@[j].session_name@ == k;
                                assert(self.entries@[j] == old_entries[j]);
                            }
                        } else {
                            assert(self.entries@[i as int].session_name@ == k);
                        }
                    }
            lemma_same_leases(self.leases(), old(self).leases().insert(name, (token, deadline)));
                }
            },
            None => {
                self.entries.push(LeaseEntry { session_name, token, deadline });
                proof {
                    assert(self.entries@.drop_last() =~= old_entries);
                    assert(unique_names(self.entries@)) by {
                        assert forall|a: int, b: int|
                            0 <= a < b < self.entries@.len() implies self.entries@[a].session_name@
                            != self.entries@[b].session_name@ by {
                            assert(self.entries@[a] == old_entries[a]);
                            if b < old_entries.len() {
                                assert(self.entries@[b] == old_entries[b]);
                            } else {
                                old(self).lemma_view(name);
                            }
                        }
                    }
                }
            },
        }
        proof {
            assert forall|j: int| 0 <= j < self.entries@.len() implies self.entries@[j].token
                <= self.next_token by {
                if self.entries@[j].token != token {
                    if j < old_entries.len() {
                        assert(self.entries@[j] == old_entries[j]);
                    }
                }
            }
        }
        token
    }

    /// Extends the lease of `session_name` to `ttl` milliseconds after `now`
    /// when `token` is its owner token; says whether it did.
    pub fn renew(&mut self, session_name: &str, token: u64, ttl: u64, now: u64) -> (renewed: bool)
        requires
            old(self).wf(),
            now + ttl <= u64::MAX,
        ensures
            final(self).wf(),
            final(self).last_token() == old(self).last_token(),
            renewed == (old(self).leases().contains_key(session_name@)
                && old(self).leases()[session_name@].0 == token),
            final(self).leases() == if renewed {
                old(self).leases().insert(session_name@, (token, (now + ttl) as u64))
            } else {
                old(self).leases()
            },
    {
        let i = match self.find(session_name) {
            Some(i) => i,
            None => {
                return false;
            },
        };
        proof {
            self.lemma_view(session_name@);
        }
        if self.entries[i].token != token {
            return false;
        }
        let ghost old_entries = self.entries@;
        let ghost name = session_name@;
        let name_copy = self.entries[i].session_name.clone();
        self.entries.set(i, LeaseEntry { session_name: name_copy, token, deadline: now + ttl });
        proof {
            assert(unique_names(self.entries@)) by {
                assert forall|a: int, b: int|
                    0 <= a < b < self.entries@.len() implies self.entries@[a].session_name@
                    != self.entries@[b].session_name@ by {
                    if a != i {
                        assert(self.entries@[a] == old_entries[a]);
                    }
                    if b != i {
                        assert(self.entries@[b] == old_entries[b]);
                    }
                }
            }
            assert forall|k: Seq<char>| #[trigger] self.leases().contains_key(k) <==> old(self).leases().insert(name, (token, (now + ttl) as u64)).contains_key(k) by {
                self.lemma_view(k);
                old(self).lemma_view(k);
                if k != name {
                    if exists|j: int| 0 <= j < old_entries.len() && old_entries[j].session_name@ == k {
                        let j = choose|j: int| 0 <= j < old_entries.len() && old_entries[j].session_name@ == k;
                        assert(self.entries@[j] == old_entries[j]);
                    }
                    if exists|j: int| 0 <= j < self.entries@.len() && self.entries@[j].session_name@ == k {
                        let j = choose|j: int| 0 <= j < self.entries@.len() && self.entries@[j].session_name@ == k;
                        assert(self.entries@[j] == old_entries[j]);
                    }
                } else {
                    assert(self.entries@[i as int].session_name@ == k);
                }
            }
            assert forall|k: Seq<char>| #[trigger] self.leases().contains_key(k) implies self.leases()[k] == old(self).leases().insert(name, (token, (now + ttl) as u64))[k] by {
                self.lemma_view(k);
                old(self).lemma_view(k);
                if k != name {
                    if exists|j: int| 0 <= j < old_entries.len() && old_entries[j].session_name@ == k {
                        let j = choose|j: int| 0 <= j < old_entries.len() && old_entries[j].session_name@ == k;
                        assert(self.entries@[j] == old_entries[j]);
                    }
                    if exists|j: int| 0 <= j < self.entries@.len() && self.entries@[j].session_name@ == k {
                        let j = choose|j: int| 0 <= j < self.entries@.len() && self.entries@[j].session_name@ == k;
                        assert(self.entries@[j] == old_entries[j]);
                    }
                } else {
                    assert(self.entries@[i as int].session_name@ == k);
                }
            }
            lemma_same_leases(self.leases(), old(self).leases().insert(name, (token, (now + ttl) as u64)));
            assert forall|j: int| 0 <= j < self.entries@.len() implies self.entries@[j].token
                <= self.next_token by {
                if j != i {
                    assert(self.entries@[j] == old_entries[j]);
                }
            }
        }
        true
    }

    proof fn lemma_removed_entry(&self, old_entries: Seq<LeaseEntry>, i: int)
        requires
            unique_names(old_entries),
            0 <= i < old_entries.len(),
            self.entries@ == old_entries.remove(i),
        ensures
            unique_names(self.entries@),
            self.leases() == entries_map(old_entries).remove(old_entries[i].session_name@),
    {
        let name = old_entries[i].session_name@;
        let s = self.entries@;
        assert forall|a: int, b: int| 0 <= a < b < s.len() implies s[a].session_name@
            != s[b].session_name@ by {
            let oa = if a < i { a } else { a + 1 };
            let ob = if b < i { b } else { b + 1 };
            assert(s[a] == old_entries[oa]);
            assert(s[b] == old_entries[ob]);
        }
        assert forall|k: Seq<char>| #[trigger] self.leases().contains_key(k) <==> entries_map(old_entries).remove(name).contains_key(k) by {
            lemma_entries_map(s, k);
            lemma_entries_map(old_entries, k);
            if exists|j: int| 0 <= j < s.len() && s[j].session_name@ == k {
                let j = choose|j: int| 0 <= j < s.len() && s[j].session_name@ == k;
                let oj = if j < i { j } else { j + 1 };
                assert(s[j] == old_entries[oj]);
            }
            if k != name && exists|j: int| 0 <= j < old_entries.len() && old_entries[j].session_name@ == k {
                let j = choose|j: int| 0 <= j < old_entries.len() && old_entries[j].session_name@ == k;
                assert(j != i);
                let sj = if j < i { j } else { j - 1 };
                assert(s[sj] == old_entries[j]);
            }
        }
            assert forall|k: Seq<char>| #[trigger] self.leases().contains_key(k) implies self.leases()[k] == entries_map(old_entries).remove(name)[k] by {
            lemma_entries_map(s, k);
            lemma_entries_map(old_entries, k);
            if exists|j: int| 0 <= j < s.len() && s[j].session_name@ == k {
                let j = choose|j: int| 0 <= j < s.len() && s[j].session_name@ == k;
                let oj = if j < i { j } else { j + 1 };
                assert(s[j] == old_entries[oj]);
            }
            if k != name && exists|j: int| 0 <= j < old_entries.len() && old_entries[j].session_name@ == k {
                let j = choose|j: int| 0 <= j < old_entries.len() && old_entries[j].session_name@ == k;
                assert(j != i);
                let sj = if j < i { j } else { j - 1 };
                assert(s[sj] == old_entries[j]);
            }
        }
            lemma_same_leases(self.leases(), entries_map(old_entries).remove(name));
    }

    /// Ends the lease of `session_name` when `token` is its owner token; says
    /// whether it did.
    pub fn release(&mut self, session_name: &str, token: u64) -> (released: bool)
        requires
            old(self).wf(),
        ensures
            final(self).wf(),
            final(self).last_token() == old(self).last_token(),
            released == (old(self).leases().contains_key(session_name@)
                && old(self).leases()[session_name@].0 == token),
            final(self).leases() == if released {
                old(self).leases().remove(session_name@)
            } else {
                old(self).leases()
            },
    {
        let i = match self.find(session_name) {
            Some(i) => i,
            None => {
                return false;
            },
        };
        proof {
            self.lemma_view(session_name@);
        }
        if self.entries[i].token != token {
            return false;
        }
        let ghost old_entries = self.entries@;
        self.entries.remove(i);
        proof {
            self.lemma_removed_entry(old_entries, i as int);
            assert forall|j: int| 0 <= j < self.entries@.len() implies self.entries@[j].token
                <= self.next_token by {
                let oj = if j < i { j } else { j + 1 };
                assert(self.entries@[j] == old_entries[oj]);
            }
        }
        true
    }

    /// Drops the leases of sessions that no longer exist.
    pub fn remove_sessions(&mut self, session_names: &[String])
        requires
            old(self).wf(),
        ensures
            final(self).wf(),
            final(self).last_token() == old(self).last_token(),
            final(self).leases() == old(self).leases().remove_keys(string_views(session_names@).to_set()),
    {
        let ghost names = string_views(session_names@);
        let mut k: usize = 0;
        proof {
            assert(old(self).leases().remove_keys(names.take(0).to_set()) =~= old(self).leases());
        }
        while k < session_names.len()
            invariant
                k <= session_names@.len(),
                names == string_views(session_names@),
                self.wf(),
                self.next_token == old(self).next_token,
                self.leases() == old(self).leases().remove_keys(names.take(k as int).to_set()),
            decreases session_names.len() - k,
        {
            let ghost before = self.leases();
            match self.find(session_names[k].as_str()) {
                Some(i) => {
                    let ghost old_entries = self.entries@;
                    self.entries.remove(i);
                    proof {
                        self.lemma_removed_entry(old_entries, i as int);
                        assert forall|j: int| 0 <= j < self.entries@.len() implies self.entries@[j].token
                            <= self.next_token by {
                            let oj = if j < i { j } else { j + 1 };
                            assert(self.entries@[j] == old_entries[oj]);
                        }
                    }
                },
                None => {},
            }
            proof {
                assert(names.take(k + 1) =~= names.take(k as int).push(names[k as int]));
                names.take(k as int).lemma_push_to_set_commute(names[k as int]);
                assert(names[k as int] == session_names@[k as int]@);
                assert(self.leases() =~= old(self).leases().remove_keys(
                    names.take(k + 1).to_set(),
                ));
            }
            k = k + 1;
        }
        proof {
            assert(names.take(session_names@.len() as int) =~= names);
        }
    }
}

/// The sessions whose leases have run out by `now`.
pub open spec fn expired_names(leases: Map<Seq<char>, (u64, u64)>, now: u64) -> Set<Seq<char>> {
    Set::new(|k: Seq<char>| leases.contains_key(k) && leases[k].1 <= now)
}

/// The entries whose leases still run at `now`.
spec fn live(entries: Seq<LeaseEntry>, now: u64) -> Seq<LeaseEntry> {
    entries.filter(|e: LeaseEntry| e.deadline > now)
}

proof fn lemma_live_entries(entries: Seq<LeaseEntry>, now: u64)
    requires
        unique_names(entries),
    ensures
        unique_names(live(entries, now)),
        entries_map(live(entries, now)) == entries_map(entries).remove_keys(
            expired_names(entries_map(entries), now),
        ),
    decreases entries.len(),
{
    if entries.len() > 0 {
        let rest = entries.drop_last();
        let e = entries.last();
        assert(unique_names(rest));
        lemma_live_entries(rest, now);
        let lr = live(rest, now);
        reveal(Seq::filter);
        assert(live(entries, now) == if e.deadline > now {
            lr.push(e)
        } else {
            lr
        });
        let mr = entries_map(rest);
        let m = entries_map(entries);
        assert(m == mr.insert(e.session_name@, (e.token, e.deadline)));
        lemma_entries_map(rest, e.session_name@);
        assert(!mr.contains_key(e.session_name@)) by {
            if mr.contains_key(e.session_name@) {
                let i = choose|i: int| 0 <= i < rest.len() && rest[i].session_name@ == e.session_name@;
                assert(entries[i] == rest[i]);
            }
        }
        lemma_entries_map(lr, e.session_name@);
        assert(!entries_map(lr).contains_key(e.session_name@));
        if e.deadline > now {
            let l = lr.push(e);
            assert forall|a: int, b: int| 0 <= a < b < l.len() implies l[a].session_name@
                != l[b].session_name@ by {
                if b == l.len() - 1 {
                    assert(l[a] == lr[a]);
                    assert(l[b] == e);
                } else {
                    assert(l[a] == lr[a]);
                    assert(l[b] == lr[b]);
                }
            }
            assert(l.drop_last() =~= lr);
        }
        let target = m.remove_keys(expired_names(m, now));
        let lm = entries_map(live(entries, now));
        assert forall|k: Seq<char>| #[trigger] lm.contains_key(k) <==> target.contains_key(k) by {
            if k != e.session_name@ {
                assert(expired_names(m, now).contains(k) == expired_names(mr, now).contains(k));
            }
        }
        assert forall|k: Seq<char>| #[trigger] lm.contains_key(k) implies lm[k] == target[k] by {
            if k != e.session_name@ {
                assert(expired_names(m, now).contains(k) == expired_names(mr, now).contains(k));
            }
        }
        lemma_same_leases(lm, target);
    } else {
        assert(live(entries, now) =~= entries);
        assert(entries_map(entries).remove_keys(expired_names(entries_map(entries), now)) =~= entries_map(
            entries,
        ));
    }
}

proof fn lemma_live_from(entries: Seq<LeaseEntry>, now: u64, j: int)
    requires
        0 <= j < live(entries, now).len(),
    ensures
        exists|o: int| 0 <= o < entries.len() && entries[o] == live(entries, now)[j],
    decreases entries.len(),
{
    reveal(Seq::filter);
    let rest = entries.drop_last();
    if j < live(rest, now).len() {
        lemma_live_from(rest, now, j);
        let o = choose|o: int| 0 <= o < rest.len() && rest[o] == live(rest, now)[j];
        assert(entries[o] == rest[o]);
    } else {
        assert(entries[entries.len() - 1] == live(entries, now)[j]);
    }
}

fn string_lt(a: &String, b: &String) -> (r: bool)
    ensures
        r == name_lt(a@, b@),
{
    let x = crate::text::chars_of(a.as_str());
    let y = crate::text::chars_of(b.as_str());
    chars_lt(x.as_slice(), y.as_slice())
}

pub(crate) fn insert_sorted(names: &mut Vec<String>, name: String)
    requires
        strictly_sorted(string_views(old(names)@)),
        !string_views(old(names)@).contains(name@),
    ensures
        strictly_sorted(string_views(final(names)@)),
        string_views(final(names)@).to_set() == string_views(old(names)@).to_set().insert(name@),
{
    let ghost before = string_views(names@);
    let mut p: usize = 0;
    while p < names.len() && string_lt(&names[p], &name)
        invariant
            p <= names@.len(),
            before == string_views(names@),
            forall|j: int| 0 <= j < p ==> name_lt(#[trigger] before[j], name@),
        decreases names.len() - p,
    {
        proof {
            assert(before[p as int] == names@[p as int]@);
        }
        p = p + 1;
    }
    proof {
        if p < before.len() {
            assert(before[p as int] == names@[p as int]@);
            assert(before[p as int] != name@) by {
                assert(before.contains(before[p as int]));
            }
            lemma_name_lt_total(before[p as int], name@);
        }
    }
    names.insert(p, name);
    proof {
        let after = string_views(names@);
        assert(after =~= before.insert(p as int, name@));
        assert forall|i: int, j: int| 0 <= i < j < after.len() implies name_lt(after[i], after[j]) by {
            if j < p {
                assert(after[i] == before[i]);
                assert(after[j] == before[j]);
            } else if j == p {
                assert(after[i] == before[i]);
            } else if i < p {
                assert(after[i] == before[i]);
                assert(after[j] == before[j - 1]);
            } else if i == p {
                assert(after[j] == before[j - 1]);
                if j - 1 > p {
                    lemma_name_lt_transitive(name@, before[p as int], before[j - 1]);
                }
            } else {
                assert(after[i] == before[i - 1]);
                assert(after[j] == before[j - 1]);
            }
        }
        assert forall|x: Seq<char>| after.to_set().contains(x) <==> before.to_set().insert(name@).contains(x) by {
            if after.contains(x) {
                let i = choose|i: int| 0 <= i < after.len() && after[i] == x;
                if i < p {
                    assert(before[i] == x);
                } else if i > p {
                    assert(before[i - 1] == x);
                }
            }
            if before.contains(x) {
                let i = choose|i: int| 0 <= i < before.len() && before[i] == x;
                if i < p {
                    assert(after[i] == x);
                } else {
                    assert(after[i + 1] == x);
                }
            }
            if x == name@ {
                assert(after[p as int] == x);
            }
        }
        assert(after.to_set() =~= before.to_set().insert(name@));
    }
}

/// Splits the entries into those still running at `now`, in order, and the
/// sorted names of those that have run out.
fn split_expired(entries: &Vec<LeaseEntry>, now: u64) -> (r: (Vec<LeaseEntry>, Vec<String>))
    requires
        unique_names(entries@),
    ensures
        r.0@ == live(entries@, now),
        strictly_sorted(string_views(r.1@)),
        forall|x: Seq<char>| #[trigger] string_views(r.1@).to_set().contains(x) <==> exists|j: int|
            0 <= j < entries@.len() && entries@[j].session_name@ == x && entries@[j].deadline <= now,
{
    let mut kept: Vec<LeaseEntry> = Vec::new();
    let mut names: Vec<String> = Vec::new();
    let mut i: usize = 0;
    while i < entries.len()
        invariant
            i <= entries@.len(),
            unique_names(entries@),
            kept@ == live(entries@.take(i as int), now),
            strictly_sorted(string_views(names@)),
            forall|x: Seq<char>| #[trigger] string_views(names@).to_set().contains(x) <==> exists|j: int|
                0 <= j < i && entries@[j].session_name@ == x && entries@[j].deadline <= now,
        decreases entries.len() - i,
    {
        let e = &entries[i];
        proof {
            assert(entries@.take(i + 1).drop_last() =~= entries@.take(i as int));
            assert(entries@.take(i + 1).last() == entries@[i as int]);
            reveal(Seq::filter);
        }
        if e.deadline <= now {
            let ghost before = string_views(names@);
            proof {
                assert(!before.contains(e.session_name@)) by {
                    if before.contains(e.session_name@) {
                        assert(before.to_set().contains(e.session_name@));
                        let j = choose|j: int|
                            0 <= j < i && entries@[j].session_name@ == e.session_name@
                                && entries@[j].deadline <= now;
                    }
                }
            }
            insert_sorted(&mut names, e.session_name.clone());
            proof {
                assert forall|x: Seq<char>| #[trigger] string_views(names@).to_set().contains(x) <==> exists|j: int|
                    0 <= j < i + 1 && entries@[j].session_name@ == x && entries@[j].deadline <= now by {
                    if x == e.session_name@ {
                        assert(entries@[i as int].session_name@ == x);
                    }
                    if exists|j: int| 0 <= j < i + 1 && entries@[j].session_name@ == x && entries@[j].deadline <= now {
                        let j = choose|j: int| 0 <= j < i + 1 && entries@[j].session_name@ == x && entries@[j].deadline <= now;
                        if j < i {
                            assert(before.to_set().contains(x));
                        }
                    }
                    if before.to_set().contains(x) {
                        let j = choose|j: int| 0 <= j < i && entries@[j].session_name@ == x && entries@[j].deadline <= now;
                        assert(0 <= j < i + 1);
                    }
                }
            }
        } else {
            kept.push(LeaseEntry { session_name: e.session_name.clone(), token: e.token, deadline: e.deadline });
            proof {
                assert forall|x: Seq<char>| #[trigger] string_views(names@).to_set().contains(x) <==> exists|j: int|
                    0 <= j < i + 1 && entries@[j].session_name@ == x && entries@[j].deadline <= now by {
                    if exists|j: int| 0 <= j < i + 1 && entries@[j].session_name@ == x && entries@[j].deadline <= now {
                        let j = choose|j: int| 0 <= j < i + 1 && entries@[j].session_name@ == x && entries@[j].deadline <= now;
                        assert(j < i);
                    }
                }
            }
        }
        i = i + 1;
    }
    proof {
        assert(entries@.take(entries@.len() as int) =~= entries@);
    }
    (kept, names)
}

impl SessionLeaseStore {
    /// Removes the leases that have run out by `now` and returns their
    /// sessions in name order.
    pub fn expired(&mut self, now: u64) -> (expired: Vec<String>)
        requires
            old(self).wf(),
        ensures
            final(self).wf(),
            final(self).last_token() == old(self).last_token(),
            strictly_sorted(string_views(expired@)),
            string_views(expired@).to_set() == expired_names(old(self).leases(), now),
            final(self).leases() == old(self).leases().remove_keys(expired_names(old(self).leases(), now)),
    {
        let ghost old_entries = self.entries@;
        let (kept, names) = split_expired(&self.entries, now);
        proof {
            lemma_live_entries(old_entries, now);
            let ex = expired_names(old(self).leases(), now);
            assert forall|x: Seq<char>| string_views(names@).to_set().contains(x) <==> ex.contains(x) by {
                lemma_entries_map(old_entries, x);
                if ex.contains(x) {
                    let j = choose|j: int| 0 <= j < old_entries.len() && old_entries[j].session_name@ == x;
                    assert(old_entries[j].deadline <= now);
                }
            }
            assert(string_views(names@).to_set() =~= ex);
        }
        self.entries = kept;
        proof {
            assert forall|j: int| 0 <= j < self.entries@.len() implies self.entries@[j].token
                <= self.next_token by {
                lemma_live_from(old_entries, now, j);
                let o = choose|o: int| 0 <= o < old_entries.len() && old_entries[o] == self.entries@[j];
            }
        }
        names
    }
}

/// Whether `token` renews or releases the lease of `name`.
pub open spec fn lease_owned_by(leases: Map<Seq<char>, (u64, u64)>, name: Seq<char>, token: u64) -> bool {
    leases.contains_key(name) && leases[name].0 == token
}

/// After a lease is given to a session, that session's lease answers to the
/// token handed out and to no other, and a renewal keeps it so.
pub proof fn law_lease_answers_only_its_token(
    leases: Map<Seq<char>, (u64, u64)>,
    name: Seq<char>,
    token: u64,
    deadline: u64,
    other: u64,
    later: u64,
)
    ensures
        lease_owned_by(leases.insert(name, (token, deadline)), name, token),
        other != token ==> !lease_owned_by(leases.insert(name, (token, deadline)), name, other),
        lease_owned_by(leases.insert(name, (token, deadline)).insert(name, (token, later)), name, token),
        !lease_owned_by(leases.insert(name, (token, deadline)).remove(name), name, token),
{
}

/// While tokens last, the token that `create` hands out belongs to no live
/// lease: every live lease holds an earlier token.
pub proof fn law_new_token_is_fresh(store: &SessionLeaseStore, name: Seq<char>)
    requires
        store.wf(),
        store.last_token() < u64::MAX,
        store.leases().contains_key(name),
    ensures
        store.leases()[name].0 != store.last_token() + 1,
{
    store.lemma_tokens_bounded(name);
}

/// After the expired leases are taken out, every lease left runs past `now`.
pub proof fn law_no_expired_lease_survives(leases: Map<Seq<char>, (u64, u64)>, now: u64, name: Seq<char>)
    requires
        leases.remove_keys(expired_names(leases, now)).contains_key(name),
    ensures
        leases[name].1 > now,
{
}

/// Why a lease lifetime is refused.
#[derive(Debug, Clone, Copy, PartialEq, Eq, Structural)]
pub enum LeaseTtlError {
    /// The lifetime is zero.
    Zero,
    /// The lifetime is below the protocol's minimum, `min_ttl_millis`.
    BelowMinimum { min_ttl_millis: u64 },
}

impl LeaseTtlError {
    /// The text a client is answered with.
    pub open spec fn message_spec(self) -> Seq<char> {
        match self {
            LeaseTtlError::Zero => "session lease ttl must be greater than zero"@,
            LeaseTtlError::BelowMinimum { min_ttl_millis } => "session lease ttl must be at least "@
                + decimal_chars(min_ttl_millis as nat) + "ms"@,
        }
    }

    /// The text a client is answered with.
    pub fn message(&self) -> (m: String)
        ensures
            m@ == self.message_spec(),
    {
        match self {
            LeaseTtlError::Zero => String::from_str("session lease ttl must be greater than zero"),
            LeaseTtlError::BelowMinimum { min_ttl_millis } => {
                let mut m = String::from_str("session lease ttl must be at least ");
                push_decimal_chars(&mut m, *min_ttl_millis);
                m.append("ms");
                m
            },
        }
    }
}

/// Checks a requested lease lifetime in milliseconds against the protocol's
/// minimum, and returns it when it is accepted.
pub fn duration_from_millis(ttl_millis: u64, min_ttl_millis: u64) -> (r: Result<u64, LeaseTtlError>)
    ensures
        ttl_millis == 0 ==> r == Err::<u64, LeaseTtlError>(LeaseTtlError::Zero),
        ttl_millis != 0 && ttl_millis < min_ttl_millis ==> r == Err::<u64, LeaseTtlError>(
            LeaseTtlError::BelowMinimum { min_ttl_millis },
        ),
        ttl_millis != 0 && ttl_millis >= min_ttl_millis ==> r == Ok::<u64, LeaseTtlError>(
            ttl_millis,
        ),
{
    if ttl_millis == 0 {
        return Err(LeaseTtlError::Zero);
    }
    if ttl_millis < min_ttl_millis {
        return Err(LeaseTtlError::BelowMinimum { min_ttl_millis });
    }
    Ok(ttl_millis)
}

} // verus!
