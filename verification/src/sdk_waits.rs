use vstd::prelude::*;

verus! {

/// How an SDK wait registration went.
#[derive(Debug, Clone, Copy, PartialEq, Eq, Structural)]
pub enum SdkWaitRegistration {
    /// The wait is registered; its cancel signal is armed.
    Registered,
    /// The wait was cancelled before it was registered: it ends at once.
    CancelledBeforeRegistration,
}

/// Why an SDK wait could not be registered.
#[derive(Debug, Clone, Copy, PartialEq, Eq, Structural)]
pub enum SdkWaitError {
    /// The wait id was already used by this owner: wait ids are one-shot.
    AlreadyUsed { owner_id: u64, wait_id: u64 },
}

/// The SDK waits of the server: the registered waits, each with its owner,
/// id and connection; every (owner, wait id) ever registered; and the waits
/// cancelled before their registration arrived. The sets are held as vectors,
/// viewed as the sets of their elements: vstd gives hash sets a model only for single-integer keys,
/// and these keys are pairs.
pub struct SdkWaitState {
    active: Vec<(u64, u64, u64)>,
    seen_waits: Vec<(u64, u64)>,
    cancelled_before_register: Vec<(u64, u64)>,
}

/// The abstract state of the SDK waits.
pub struct SdkWaitView {
    /// Registered waits as (owner, wait id, connection).
    pub active: Set<(u64, u64, u64)>,
    /// Every (owner, wait id) that has been registered.
    pub seen: Set<(u64, u64)>,
    /// Waits cancelled before they were registered.
    pub cancelled_early: Set<(u64, u64)>,
}

/// Whether the wait (`owner`, `wait`) is registered.
pub open spec fn is_active(active: Set<(u64, u64, u64)>, owner: u64, wait: u64) -> bool {
    exists|c: u64| active.contains((owner, wait, c))
}

/// The registered waits without (`owner`, `wait`).
pub open spec fn without_wait(active: Set<(u64, u64, u64)>, owner: u64, wait: u64) -> Set<
    (u64, u64, u64),
> {
    active.filter(|t: (u64, u64, u64)| !(t.0 == owner && t.1 == wait))
}

/// A registration: refused for a wait id already used; consumed by an earlier
/// cancellation; otherwise the wait becomes active on `connection`.
pub open spec fn register_spec(v: SdkWaitView, connection: u64, owner: u64, wait: u64) -> (
    SdkWaitView,
    Result<SdkWaitRegistration, SdkWaitError>,
) {
    if v.seen.contains((owner, wait)) {
        (v, Err(SdkWaitError::AlreadyUsed { owner_id: owner, wait_id: wait }))
    } else if v.cancelled_early.contains((owner, wait)) {
        (
            SdkWaitView {
                seen: v.seen.insert((owner, wait)),
                cancelled_early: v.cancelled_early.remove((owner, wait)),
                ..v
            },
            Ok(SdkWaitRegistration::CancelledBeforeRegistration),
        )
    } else {
        (
            SdkWaitView {
                seen: v.seen.insert((owner, wait)),
                active: v.active.insert((owner, wait, connection)),
                ..v
            },
            Ok(SdkWaitRegistration::Registered),
        )
    }
}

/// A wait that matched: it is no longer active; says whether it was.
pub open spec fn complete_spec(v: SdkWaitView, owner: u64, wait: u64) -> (SdkWaitView, bool) {
    (
        SdkWaitView { active: without_wait(v.active, owner, wait), ..v },
        is_active(v.active, owner, wait),
    )
}

/// A cancellation: an active wait ends (and its cancel signal fires); one not
/// yet registered is remembered so that its registration ends at once. Says
/// whether an active wait ended.
pub open spec fn cancel_spec(v: SdkWaitView, owner: u64, wait: u64) -> (SdkWaitView, bool) {
    let removed = is_active(v.active, owner, wait);
    (
        SdkWaitView {
            active: without_wait(v.active, owner, wait),
            cancelled_early: if !removed && !v.seen.contains((owner, wait)) {
                v.cancelled_early.insert((owner, wait))
            } else {
                v.cancelled_early
            },
            ..v
        },
        removed,
    )
}

/// The waits of a connection that went away: they end, and their cancel
/// signals fire.
pub open spec fn connection_waits(active: Set<(u64, u64, u64)>, connection: u64) -> Set<(u64, u64)> {
    Set::new(|k: (u64, u64)| active.contains((k.0, k.1, connection)))
}

pub open spec fn remove_connection_spec(v: SdkWaitView, connection: u64) -> SdkWaitView {
    SdkWaitView { active: v.active.filter(|t: (u64, u64, u64)| t.2 != connection), ..v }
}

spec fn keys_unique(active: Seq<(u64, u64, u64)>) -> bool {
    forall|i: int, j: int|
        0 <= i < j < active.len() ==> !(active[i].0 == active[j].0 && active[i].1 == active[j].1)
}

impl SdkWaitState {
    pub closed spec fn view(&self) -> SdkWaitView {
        SdkWaitView {
            active: self.active@.to_set(),
            seen: self.seen_waits@.to_set(),
            cancelled_early: self.cancelled_before_register@.to_set(),
        }
    }

    /// The state's invariant: one registration per wait; only waits that have
    /// been seen are active; a wait remembered as cancelled early has not been
    /// seen.
    pub closed spec fn wf(&self) -> bool {
        &&& keys_unique(self.active@)
        &&& forall|i: int|
            0 <= i < self.active@.len() ==> self.seen_waits@.contains(
                (#[trigger] self.active@[i].0, self.active@[i].1),
            )
        &&& forall|k: (u64, u64)|
            self.cancelled_before_register@.contains(k) ==> !#[trigger] self.seen_waits@.contains(k)
    }

    /// No waits.
    pub fn new() -> (state: Self)
        ensures
            state.wf(),
            state.view().active == Set::<(u64, u64, u64)>::empty(),
            state.view().seen == Set::<(u64, u64)>::empty(),
            state.view().cancelled_early == Set::<(u64, u64)>::empty(),
    {
        let state = SdkWaitState {
            active: Vec::new(),
            seen_waits: Vec::new(),
            cancelled_before_register: Vec::new(),
        };
        proof {
            assert(state.active@.to_set() =~= Set::<(u64, u64, u64)>::empty());
            assert(state.seen_waits@.to_set() =~= Set::<(u64, u64)>::empty());
            assert(state.cancelled_before_register@.to_set() =~= Set::<(u64, u64)>::empty());
        }
        state
    }

    fn find_active(&self, owner: u64, wait: u64) -> (r: Option<usize>)
        ensures
            match r {
                Some(i) => i < self.active@.len() && self.active@[i as int].0 == owner
                    && self.active@[i as int].1 == wait,
                None => forall|i: int|
                    0 <= i < self.active@.len() ==> !(self.active@[i].0 == owner
                        && self.active@[i].1 == wait),
            },
    {
        let mut i: usize = 0;
        while i < self.active.len()
            invariant
                i <= self.active@.len(),
                forall|j: int|
                    0 <= j < i ==> !(self.active@[j].0 == owner && self.active@[j].1 == wait),
            decreases self.active.len() - i,
        {
            let t = self.active[i];
            if t.0 == owner && t.1 == wait {
                return Some(i);
            }
            i = i + 1;
        }
        None
    }

    /// Removes the registration of (`owner`, `wait`); says whether there was one.
    fn remove_active(&mut self, owner: u64, wait: u64) -> (removed: bool)
        requires
            old(self).wf(),
        ensures
            final(self).wf(),
            final(self).seen_waits == old(self).seen_waits,
            final(self).cancelled_before_register == old(self).cancelled_before_register,
            removed == is_active(old(self).view().active, owner, wait),
            final(self).view().active == without_wait(old(self).view().active, owner, wait),
    {
        let ghost before = self.active@;
        match self.find_active(owner, wait) {
            None => {
                proof {
                    assert(!is_active(before.to_set(), owner, wait)) by {
                        if is_active(before.to_set(), owner, wait) {
                            let c = choose|c: u64| before.to_set().contains((owner, wait, c));
                            assert(before.contains((owner, wait, c)));
                        }
                    }
                    assert(without_wait(before.to_set(), owner, wait) =~= before.to_set());
                }
                false
            },
            Some(i) => {
                let t = self.active.remove(i);
                proof {
                    let after = self.active@;
                    assert(t == (owner, wait, t.2));
                    assert(before.contains(t));
                    assert(before.to_set().contains((owner, wait, t.2)));
                    assert(is_active(before.to_set(), owner, wait));
                    assert forall|a: int, b: int| 0 <= a < b < after.len() implies !(after[a].0
                        == after[b].0 && after[a].1 == after[b].1) by {
                        let oa = if a < i { a } else { a + 1 };
                        let ob = if b < i { b } else { b + 1 };
                        assert(after[a] == before[oa]);
                        assert(after[b] == before[ob]);
                    }
                    assert forall|j: int| 0 <= j < after.len() implies self.seen_waits@.contains(
                        (#[trigger] after[j].0, after[j].1),
                    ) by {
                        let oj = if j < i { j } else { j + 1 };
                        assert(after[j] == before[oj]);
                    }
                    assert forall|x: (u64, u64, u64)| after.to_set().contains(x) <==> without_wait(
                        before.to_set(),
                        owner,
                        wait,
                    ).contains(x) by {
                        if after.contains(x) {
                            let j = choose|j: int| 0 <= j < after.len() && after[j] == x;
                            let oj = if j < i { j } else { j + 1 };
                            assert(after[j] == before[oj]);
                            assert(oj != i);
                            assert(before.contains(x));
                        }
                        if before.contains(x) && !(x.0 == owner && x.1 == wait) {
                            let j = choose|j: int| 0 <= j < before.len() && before[j] == x;
                            assert(j != i);
                            let aj = if j < i { j } else { j - 1 };
                            assert(after[aj] == x);
                        }
                    }
                    assert(after.to_set() =~= without_wait(before.to_set(), owner, wait));
                }
                true
            },
        }
    }

    /// Registers the wait `wait_id` of `owner_id` for `connection_id`.
    pub fn register(&mut self, connection_id: u64, owner_id: u64, wait_id: u64) -> (r: Result<
        SdkWaitRegistration,
        SdkWaitError,
    >)
        requires
            old(self).wf(),
        ensures
            final(self).wf(),
            (final(self).view(), r) == register_spec(old(self).view(), connection_id, owner_id, wait_id),
    {
        let key = (owner_id, wait_id);
        let mut i: usize = 0;
        while i < self.seen_waits.len()
            invariant
                i <= self.seen_waits@.len(),
                old(self).wf(),
                *self == *old(self),
                key == (owner_id, wait_id),
                forall|j: int| 0 <= j < i ==> self.seen_waits@[j] != key,
            decreases self.seen_waits.len() - i,
        {
            let seen = self.seen_waits[i];
            proof {
                assert(seen == (seen.0, seen.1));
            }
            if seen.0 == owner_id && seen.1 == wait_id {
                proof {
                    assert(seen == self.seen_waits@[i as int]);
                    assert((seen.0, seen.1) == key);
                    assert(self.seen_waits@[i as int] == key);
                    assert(self.seen_waits@.contains(key));
                }
                return Err(SdkWaitError::AlreadyUsed { owner_id, wait_id });
            }
            i = i + 1;
        }
        let ghost old_seen = self.seen_waits@;
        proof {
            assert(!old_seen.to_set().contains(key));
        }
        self.seen_waits.push(key);
        proof {
            old_seen.lemma_push_to_set_commute(key);
        }
        let ghost old_cancelled = self.cancelled_before_register@;
        let mut kept: Vec<(u64, u64)> = Vec::new();
        let mut found = false;
        let mut j: usize = 0;
        while j < self.cancelled_before_register.len()
            invariant
                j <= old_cancelled.len(),
                key == (owner_id, wait_id),
                self.cancelled_before_register@ == old_cancelled,
                found == (exists|m: int| 0 <= m < j && old_cancelled[m] == key),
                forall|x: (u64, u64)| #[trigger] kept@.contains(x) <==> (x != key && exists|m: int|
                    0 <= m < j && old_cancelled[m] == x),
            decreases old_cancelled.len() - j,
        {
            let x = self.cancelled_before_register[j];
            let ghost before = kept@;
            let is_key = x.0 == owner_id && x.1 == wait_id;
            proof {
                assert(x == (x.0, x.1));
                assert(is_key == (x == key));
            }
            if is_key {
                found = true;
            } else {
                kept.push(x);
            }
            proof {
                assert forall|y: (u64, u64)| #[trigger] kept@.contains(y) <==> (y != key && exists|m: int|
                    0 <= m < j + 1 && old_cancelled[m] == y) by {
                    if kept@.contains(y) && y != x {
                        let k = choose|k: int| 0 <= k < kept@.len() && kept@[k] == y;
                        if x != key {
                            assert(k < before.len());
                            assert(before[k] == y);
                        }
                        assert(before.contains(y));
                    }
                    if y == x && y != key {
                        assert(kept@[kept@.len() - 1] == y);
                    }
                    if y != key && exists|m: int| 0 <= m < j + 1 && old_cancelled[m] == y {
                        let m = choose|m: int| 0 <= m < j + 1 && old_cancelled[m] == y;
                        if m < j {
                            assert(before.contains(y));
                            let k = choose|k: int| 0 <= k < before.len() && before[k] == y;
                            assert(kept@[k] == y);
                        } else {
                            assert(kept@[kept@.len() - 1] == y);
                        }
                    }
                }
                if x == key {
                    assert(old_cancelled[j as int] == key);
                }
            }
            j = j + 1;
        }
        self.cancelled_before_register = kept;
        proof {
            assert(found == old_cancelled.contains(key));
            assert(self.cancelled_before_register@.to_set() =~= old_cancelled.to_set().remove(key)) by {
                assert forall|x: (u64, u64)| self.cancelled_before_register@.contains(x) <==> (x != key
                    && old_cancelled.contains(x)) by {
                    if old_cancelled.contains(x) && x != key {
                        let m = choose|m: int| 0 <= m < old_cancelled.len() && old_cancelled[m] == x;
                    }
                }
            }
            assert forall|k: (u64, u64)| self.cancelled_before_register@.contains(k) implies !#[trigger] self.seen_waits@.contains(k) by {
                assert(old_cancelled.contains(k));
                if self.seen_waits@.contains(k) {
                    assert(self.seen_waits@.to_set().contains(k));
                    assert(old_seen.to_set().contains(k));
                    assert(old_seen.contains(k));
                }
            }
            assert forall|i: int| 0 <= i < self.active@.len() implies self.seen_waits@.contains(
                (#[trigger] self.active@[i].0, self.active@[i].1),
            ) by {
                assert(old_seen.contains((self.active@[i].0, self.active@[i].1)));
                let m = choose|m: int| 0 <= m < old_seen.len() && old_seen[m] == (self.active@[i].0, self.active@[i].1);
                assert(self.seen_waits@[m] == old_seen[m]);
            }
        }
        if found {
            return Ok(SdkWaitRegistration::CancelledBeforeRegistration);
        }
        let ghost old_active = self.active@;
        proof {
            assert(self.cancelled_before_register@.to_set() =~= old_cancelled.to_set());
            assert forall|i: int| 0 <= i < old_active.len() implies !(old_active[i].0 == owner_id
                && old_active[i].1 == wait_id) by {
                if old_active[i].0 == owner_id && old_active[i].1 == wait_id {
                    assert(old_seen.contains((old_active[i].0, old_active[i].1)));
                    assert(old_seen.to_set().contains(key));
                }
            }
        }
        self.active.push((owner_id, wait_id, connection_id));
        proof {
            let after = self.active@;
            old_active.lemma_push_to_set_commute((owner_id, wait_id, connection_id));
            assert forall|a: int, b: int| 0 <= a < b < after.len() implies !(after[a].0
                == after[b].0 && after[a].1 == after[b].1) by {
                assert(after[a] == old_active[a]);
                if b < old_active.len() {
                    assert(after[b] == old_active[b]);
                }
            }
            assert forall|i: int| 0 <= i < after.len() implies self.seen_waits@.contains(
                (#[trigger] after[i].0, after[i].1),
            ) by {
                if i < old_active.len() {
                    assert(after[i] == old_active[i]);
                } else {
                    assert(self.seen_waits@[self.seen_waits@.len() - 1] == key);
                }
            }
        }
        Ok(SdkWaitRegistration::Registered)
    }

    /// A wait matched: it is no longer registered. Says whether it was.
    pub fn complete(&mut self, owner_id: u64, wait_id: u64) -> (removed: bool)
        requires
            old(self).wf(),
        ensures
            final(self).wf(),
            (final(self).view(), removed) == complete_spec(old(self).view(), owner_id, wait_id),
    {
        self.remove_active(owner_id, wait_id)
    }

    /// Cancels the wait `wait_id` of `owner_id`. Says whether a registered
    /// wait ended (whose cancel signal the caller then fires).
    pub fn cancel(&mut self, owner_id: u64, wait_id: u64) -> (removed: bool)
        requires
            old(self).wf(),
        ensures
            final(self).wf(),
            (final(self).view(), removed) == cancel_spec(old(self).view(), owner_id, wait_id),
    {
        let removed = self.remove_active(owner_id, wait_id);
        if removed {
            return true;
        }
        let key = (owner_id, wait_id);
        let ghost mid = *self;
        let mut i: usize = 0;
        while i < self.seen_waits.len()
            invariant
                i <= self.seen_waits@.len(),
                mid.wf(),
                *self == mid,
                mid.view().active == without_wait(old(self).view().active, owner_id, wait_id),
                mid.seen_waits == old(self).seen_waits,
                mid.cancelled_before_register == old(self).cancelled_before_register,
                !is_active(old(self).view().active, owner_id, wait_id),
                key == (owner_id, wait_id),
                forall|j: int| 0 <= j < i ==> self.seen_waits@[j] != key,
            decreases self.seen_waits.len() - i,
        {
            let seen = self.seen_waits[i];
            proof {
                assert(seen == (seen.0, seen.1));
            }
            if seen.0 == owner_id && seen.1 == wait_id {
                proof {
                    assert(seen == self.seen_waits@[i as int]);
                    assert((seen.0, seen.1) == key);
                    assert(self.seen_waits@[i as int] == key);
                    assert(self.seen_waits@.contains(key));
                }
                return false;
            }
            i = i + 1;
        }
        let ghost before = self.cancelled_before_register@;
        self.cancelled_before_register.push(key);
        proof {
            before.lemma_push_to_set_commute(key);
            assert forall|k: (u64, u64)| self.cancelled_before_register@.contains(k) implies !#[trigger] self.seen_waits@.contains(k) by {
                if k != key {
                    let m = choose|m: int| 0 <= m < self.cancelled_before_register@.len() && self.cancelled_before_register@[m] == k;
                    assert(before[m] == k);
                }
            }
        }
        false
    }

    /// A connection went away: its waits end. Returns them, so that the caller
    /// fires their cancel signals.
    pub fn remove_connection(&mut self, connection_id: u64) -> (ended: Vec<(u64, u64)>)
        requires
            old(self).wf(),
        ensures
            final(self).wf(),
            final(self).view() == remove_connection_spec(old(self).view(), connection_id),
            ended@.to_set() == connection_waits(old(self).view().active, connection_id),
    {
        let ghost before = self.active@;
        let mut kept: Vec<(u64, u64, u64)> = Vec::new();
        let mut ended: Vec<(u64, u64)> = Vec::new();
        let mut i: usize = 0;
        while i < self.active.len()
            invariant
                i <= before.len(),
                self.active@ == before,
                keys_unique(before),
                forall|x: (u64, u64, u64)| #[trigger] kept@.contains(x) <==> (x.2 != connection_id
                    && exists|m: int| 0 <= m < i && before[m] == x),
                forall|k: (u64, u64)| #[trigger] ended@.contains(k) <==> exists|m: int|
                    0 <= m < i && before[m] == (k.0, k.1, connection_id),
                forall|a: int, b: int|
                    0 <= a < b < kept@.len() ==> !(kept@[a].0 == kept@[b].0 && kept@[a].1
                        == kept@[b].1),
                forall|a: int, m: int|
                    0 <= a < kept@.len() && i <= m < before.len() ==> !(kept@[a].0 == before[m].0
                        && kept@[a].1 == before[m].1),
            decreases before.len() - i,
        {
            let t = self.active[i];
            let ghost kb = kept@;
            let ghost eb = ended@;
            if t.2 == connection_id {
                ended.push((t.0, t.1));
            } else {
                kept.push(t);
            }
            proof {
                assert(before[i as int] == t);
                assert forall|x: (u64, u64, u64)| #[trigger] kept@.contains(x) <==> (x.2 != connection_id
                    && exists|m: int| 0 <= m < i + 1 && before[m] == x) by {
                    if kept@.contains(x) {
                        let k = choose|k: int| 0 <= k < kept@.len() && kept@[k] == x;
                        if k < kb.len() {
                            assert(kb[k] == x);
                            assert(kb.contains(x));
                        } else {
                            assert(x == t);
                        }
                    }
                    if x.2 != connection_id && exists|m: int| 0 <= m < i + 1 && before[m] == x {
                        let m = choose|m: int| 0 <= m < i + 1 && before[m] == x;
                        if m < i {
                            assert(kb.contains(x));
                            let k = choose|k: int| 0 <= k < kb.len() && kb[k] == x;
                            assert(kept@[k] == x);
                        } else {
                            assert(kept@[kept@.len() - 1] == x);
                        }
                    }
                }
                assert forall|k: (u64, u64)| #[trigger] ended@.contains(k) <==> exists|m: int|
                    0 <= m < i + 1 && before[m] == (k.0, k.1, connection_id) by {
                    if ended@.contains(k) {
                        let n = choose|n: int| 0 <= n < ended@.len() && ended@[n] == k;
                        if n < eb.len() {
                            assert(eb[n] == k);
                            assert(eb.contains(k));
                        } else {
                            assert(before[i as int] == (k.0, k.1, connection_id));
                        }
                    }
                    if exists|m: int| 0 <= m < i + 1 && before[m] == (k.0, k.1, connection_id) {
                        let m = choose|m: int| 0 <= m < i + 1 && before[m] == (k.0, k.1, connection_id);
                        if m < i {
                            assert(eb.contains(k));
                            let n = choose|n: int| 0 <= n < eb.len() && eb[n] == k;
                            assert(ended@[n] == k);
                        } else {
                            assert(ended@[ended@.len() - 1] == k);
                        }
                    }
                }
                assert forall|a: int, b: int|
                    0 <= a < b < kept@.len() implies !(kept@[a].0 == kept@[b].0 && kept@[a].1
                        == kept@[b].1) by {
                    if b >= kb.len() {
                        assert(kept@[a] == kb[a]);
                    } else {
                        assert(kept@[a] == kb[a]);
                        assert(kept@[b] == kb[b]);
                    }
                }
                assert forall|a: int, m: int|
                    0 <= a < kept@.len() && i + 1 <= m < before.len() implies !(kept@[a].0
                        == before[m].0 && kept@[a].1 == before[m].1) by {
                    if a < kb.len() {
                        assert(kept@[a] == kb[a]);
                    } else {
                        assert(kept@[a] == before[i as int]);
                    }
                }
            }
            i = i + 1;
        }
        self.active = kept;
        proof {
            let after = self.active@;
            assert(after.to_set() =~= remove_connection_spec(old(self).view(), connection_id).active) by {
                assert forall|x: (u64, u64, u64)| after.contains(x) <==> (before.contains(x) && x.2 != connection_id) by {
                    if before.contains(x) && x.2 != connection_id {
                        let m = choose|m: int| 0 <= m < before.len() && before[m] == x;
                    }
                }
            }
            assert(ended@.to_set() =~= connection_waits(before.to_set(), connection_id)) by {
                assert forall|k: (u64, u64)| ended@.contains(k) <==> before.contains((k.0, k.1, connection_id)) by {
                    if before.contains((k.0, k.1, connection_id)) {
                        let m = choose|m: int| 0 <= m < before.len() && before[m] == (k.0, k.1, connection_id);
                    }
                }
            }
            assert forall|j: int| 0 <= j < after.len() implies self.seen_waits@.contains(
                (#[trigger] after[j].0, after[j].1),
            ) by {
                assert(after.contains(after[j]));
                let m = choose|m: int| 0 <= m < before.len() && before[m] == after[j];
            }
        }
        ended
    }
}

/// Wait ids are one-shot: once a wait has been registered, registering it
/// again is refused, whatever happened to it since (it matched, was
/// cancelled, or its connection went away), and the refusal changes nothing.
pub proof fn law_wait_ids_are_one_shot(
    v: SdkWaitView,
    connection: u64,
    owner: u64,
    wait: u64,
    later_connection: u64,
    other_owner: u64,
    other_wait: u64,
    gone_connection: u64,
)
    requires
        register_spec(v, connection, owner, wait).1 is Ok,
    ensures
        ({
            let v1 = register_spec(v, connection, owner, wait).0;
            let after_complete = complete_spec(v1, other_owner, other_wait).0;
            let after_cancel = cancel_spec(v1, other_owner, other_wait).0;
            let after_teardown = remove_connection_spec(v1, gone_connection);
            &&& register_spec(v1, later_connection, owner, wait) == (
                v1,
                Err::<SdkWaitRegistration, SdkWaitError>(
                    SdkWaitError::AlreadyUsed { owner_id: owner, wait_id: wait },
                ),
            )
            &&& register_spec(after_complete, later_connection, owner, wait).1 is Err
            &&& register_spec(after_cancel, later_connection, owner, wait).1 is Err
            &&& register_spec(after_teardown, later_connection, owner, wait).1 is Err
        }),
{
}

/// A cancellation that arrives before its wait is registered is not lost: the
/// registration that follows ends at once, and a later cancellation finds
/// nothing to end.
pub proof fn law_early_cancel_is_consumed_by_registration(
    v: SdkWaitView,
    owner: u64,
    wait: u64,
    connection: u64,
)
    requires
        !v.seen.contains((owner, wait)),
        !is_active(v.active, owner, wait),
    ensures
        ({
            let (v1, removed) = cancel_spec(v, owner, wait);
            let (v2, r) = register_spec(v1, connection, owner, wait);
            &&& !removed
            &&& r == Ok::<SdkWaitRegistration, SdkWaitError>(
                SdkWaitRegistration::CancelledBeforeRegistration,
            )
            &&& !is_active(v2.active, owner, wait)
            &&& !cancel_spec(v2, owner, wait).1
        }),
{
    let (v1, removed) = cancel_spec(v, owner, wait);
    let (v2, r) = register_spec(v1, connection, owner, wait);
    assert(v2.active == without_wait(v.active, owner, wait));
    if is_active(v2.active, owner, wait) {
        let c = choose|c: u64| v2.active.contains((owner, wait, c));
        assert(!without_wait(v.active, owner, wait).contains((owner, wait, c)));
    }
}

/// Tearing down a connection ends exactly that connection's waits: the waits
/// of every other connection stay registered.
pub proof fn law_teardown_ends_only_that_connection(
    v: SdkWaitView,
    connection: u64,
    t: (u64, u64, u64),
)
    requires
        v.active.contains(t),
    ensures
        remove_connection_spec(v, connection).active.contains(t) <==> t.2 != connection,
        connection_waits(v.active, connection).contains((t.0, t.1)) <== t.2 == connection,
{
}

} // verus!
