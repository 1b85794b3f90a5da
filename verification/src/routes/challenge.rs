//! Sign-in challenges: the store of issued nonces and their issue times,
//! and the checks made on a signed challenge before its signature is read.
use vstd::prelude::*;
use crate::text::{ostr_view, ostring_view};
use vstd::string::StringSliceAdditionalSpecFns;
use crate::trusted::utc_now_timestamp;
use crate::text::{chars_of, string_from_chars, trim, trim_spec};
use crate::error::{ApiError, bad_request, is_bad_request};

verus! {

/// Largest number of challenges kept at once.
pub const CHALLENGE_STORE_MAX_ENTRIES: usize = 10000;

/// A challenge issued at `issued` is still accepted at `now` while the two
/// are at most two minutes apart, in either direction.
pub open spec fn challenge_fresh(now: i64, issued: i64) -> bool {
    -120 <= now - issued <= 120
}

/// The nonces of a list of entries, in order.
pub open spec fn key_seq(s: Seq<(String, i64)>) -> Seq<Seq<char>> {
    s.map_values(|e: (String, i64)| e.0@)
}

/// The table that a list of entries with distinct nonces stands for.
pub open spec fn table_of(s: Seq<(String, i64)>) -> Map<Seq<char>, i64> {
    Map::new(
        |k: Seq<char>| key_seq(s).contains(k),
        |k: Seq<char>| s[choose|i: int| 0 <= i < s.len() && s[i].0@ == k].1,
    )
}

/// The entries of `m` still fresh at `now`.
pub open spec fn fresh_at(m: Map<Seq<char>, i64>, now: i64) -> Map<Seq<char>, i64> {
    Map::new(|k: Seq<char>| m.contains_key(k) && challenge_fresh(now, m[k]), |k: Seq<char>| m[k])
}

/// `small` keeps some of the entries of `big`, unchanged.
pub open spec fn kept_from(small: Map<Seq<char>, i64>, big: Map<Seq<char>, i64>) -> bool {
    forall|k: Seq<char>| #[trigger]
        small.contains_key(k) ==> big.contains_key(k) && small[k] == big[k]
}

/// Every entry of `big` that `small` dropped was issued no later than every
/// entry that `small` kept.
pub open spec fn dropped_oldest(small: Map<Seq<char>, i64>, big: Map<Seq<char>, i64>) -> bool {
    forall|a: Seq<char>, b: Seq<char>|
        #![trigger big[a], small[b]]
        big.contains_key(a) && !small.contains_key(a) && small.contains_key(b) ==> big[a] <= small[b]
}

/// The list behind a challenge store: nonce and issue time, nonces distinct
/// while `wf` holds.
struct ChallengeTable {
    entries: Vec<(String, i64)>,
}

impl View for ChallengeTable {
    type V = Map<Seq<char>, i64>;

    closed spec fn view(&self) -> Map<Seq<char>, i64> {
        table_of(self.entries@)
    }
}

proof fn lemma_table(s: Seq<(String, i64)>)
    requires
        key_seq(s).no_duplicates(),
    ensures
        forall|i: int|
            0 <= i < s.len() ==> #[trigger] table_of(s).contains_key(s[i].0@) && table_of(s)[s[i].0@]
                == s[i].1,
        forall|k: Seq<char>|
            #[trigger] table_of(s).contains_key(k) <==> exists|i: int|
                0 <= i < s.len() && s[i].0@ == k,
        table_of(s).dom().finite(),
        table_of(s).len() == s.len(),
{
    let ks = key_seq(s);
    assert forall|i: int| 0 <= i < s.len() implies #[trigger] table_of(s).contains_key(s[i].0@)
        && table_of(s)[s[i].0@] == s[i].1 by {
        assert(ks[i] == s[i].0@);
        let j = choose|j: int| 0 <= j < s.len() && s[j].0@ == s[i].0@;
        assert(ks[j] == s[j].0@);
    }
    assert forall|k: Seq<char>| #[trigger]
        table_of(s).contains_key(k) <==> exists|i: int| 0 <= i < s.len() && s[i].0@ == k by {
        if table_of(s).contains_key(k) {
            let i = choose|i: int| 0 <= i < ks.len() && ks[i] == k;
            assert(s[i].0@ == k);
        }
        if exists|i: int| 0 <= i < s.len() && s[i].0@ == k {
            let i = choose|i: int| 0 <= i < s.len() && s[i].0@ == k;
            assert(ks[i] == k);
        }
    }
    ks.unique_seq_to_set();
    assert(table_of(s).dom() =~= ks.to_set());
}

impl ChallengeTable {
    /// The nonces are distinct.
    spec fn wf(&self) -> bool {
        key_seq(self.entries@).no_duplicates()
    }

    /// An empty store.
    fn new() -> (r: Self)
        ensures
            r.wf(),
            r@ == Map::<Seq<char>, i64>::empty(),
    {
        let r = ChallengeTable { entries: Vec::new() };
        assert(r@ =~= Map::<Seq<char>, i64>::empty());
        r
    }

    /// The number of challenges held.
    fn len(&self) -> (n: usize)
        requires
            self.wf(),
        ensures
            self@.dom().finite(),
            n == self@.len(),
    {
        proof {
            lemma_table(self.entries@);
        }
        self.entries.len()
    }

    fn position(&self, nonce: &String) -> (r: Option<usize>)
        requires
            self.wf(),
        ensures
            match r {
                Some(i) => i < self.entries@.len() && self.entries@[i as int].0@ == nonce@,
                None => !self@.contains_key(nonce@),
            },
    {
        proof {
            lemma_table(self.entries@);
        }
        let mut i: usize = 0;
        while i < self.entries.len()
            invariant
                i <= self.entries@.len(),
                forall|j: int| 0 <= j < i ==> self.entries@[j].0@ != nonce@,
            decreases self.entries.len() - i,
        {
            if self.entries[i].0 == *nonce {
                return Some(i);
            }
            i = i + 1;
        }
        None
    }

    /// The issue time recorded for `nonce`, if any.
    fn get(&self, nonce: &String) -> (r: Option<i64>)
        requires
            self.wf(),
        ensures
            r == (if self@.contains_key(nonce@) {
                Some(self@[nonce@])
            } else {
                None::<i64>
            }),
    {
        proof {
            lemma_table(self.entries@);
        }
        match self.position(nonce) {
            Some(i) => Some(self.entries[i].1),
            None => None,
        }
    }

    /// Records `nonce` as issued at `issued`, replacing an earlier record of
    /// the same nonce.
    fn insert(&mut self, nonce: String, issued: i64)
        requires
            old(self).wf(),
        ensures
            final(self).wf(),
            final(self)@ == old(self)@.insert(nonce@, issued),
    {
        let ghost old_s = self.entries@;
        proof {
            lemma_table(old_s);
        }
        match self.position(&nonce) {
            Some(i) => {
                let ghost key = nonce@;
                self.entries.set(i, (nonce, issued));
                let ghost s = self.entries@;
                proof {
                    assert(s == old_s.update(i as int, s[i as int]));
                    assert forall|a: int, b: int|
                        0 <= a < s.len() && 0 <= b < s.len() && a != b implies key_seq(s)[a]
                        != key_seq(s)[b] by {
                        assert(key_seq(s)[a] == s[a].0@);
                        assert(key_seq(s)[b] == s[b].0@);
                        assert(key_seq(old_s)[a] == old_s[a].0@);
                        assert(key_seq(old_s)[b] == old_s[b].0@);
                    }
                    lemma_table(s);
                    assert forall|k: Seq<char>| #[trigger]
                        table_of(s).contains_key(k) == table_insert(old_s, key, issued).contains_key(k)
                        by {
                        if table_of(s).contains_key(k) && k != key {
                            let j = choose|j: int| 0 <= j < s.len() && s[j].0@ == k;
                            assert(old_s[j] == s[j]);
                        }
                        if table_of(old_s).contains_key(k) {
                            let j = choose|j: int| 0 <= j < old_s.len() && old_s[j].0@ == k;
                            if j != i {
                                assert(old_s[j] == s[j]);
                            }
                        }
                    }
                    assert forall|k: Seq<char>| #[trigger] table_of(s).contains_key(k) implies
                        table_of(s)[k] == table_insert(old_s, key, issued)[k] by {
                        let j = choose|j: int| 0 <= j < s.len() && s[j].0@ == k;
                        if j != i {
                            assert(old_s[j] == s[j]);
                        }
                    }
                    assert(table_of(s) =~= table_of(old_s).insert(key, issued));
                }
            },
            None => {
                let ghost key = nonce@;
                self.entries.push((nonce, issued));
                let ghost s = self.entries@;
                proof {
                    assert(s == old_s.push(s[s.len() - 1]));
                    assert forall|a: int, b: int|
                        0 <= a < s.len() && 0 <= b < s.len() && a != b implies key_seq(s)[a]
                        != key_seq(s)[b] by {
                        assert(key_seq(s)[a] == s[a].0@);
                        assert(key_seq(s)[b] == s[b].0@);
                        if a < old_s.len() {
                            assert(key_seq(old_s)[a] == old_s[a].0@);
                        }
                        if b < old_s.len() {
                            assert(key_seq(old_s)[b] == old_s[b].0@);
                        }
                    }
                    lemma_table(s);
                    assert forall|k: Seq<char>| #[trigger]
                        table_of(s).contains_key(k) == table_insert(old_s, key, issued).contains_key(k)
                        by {
                        if table_of(s).contains_key(k) && k != key {
                            let j = choose|j: int| 0 <= j < s.len() && s[j].0@ == k;
                            assert(old_s[j] == s[j]);
                        }
                        if table_of(old_s).contains_key(k) {
                            let j = choose|j: int| 0 <= j < old_s.len() && old_s[j].0@ == k;
                            assert(old_s[j] == s[j]);
                        }
                    }
                    assert forall|k: Seq<char>| #[trigger] table_of(s).contains_key(k) implies
                        table_of(s)[k] == table_insert(old_s, key, issued)[k] by {
                        let j = choose|j: int| 0 <= j < s.len() && s[j].0@ == k;
                        if j < old_s.len() {
                            assert(old_s[j] == s[j]);
                            assert(table_of(old_s).contains_key(old_s[j].0@));
                            assert(k != key);
                        } else {
                            assert(k == key);
                        }
                    }
                    assert(table_of(s) =~= table_of(old_s).insert(key, issued));
                }
            },
        }
    }

    /// Removes `nonce`; true exactly when it was present.
    fn remove(&mut self, nonce: &String) -> (removed: bool)
        requires
            old(self).wf(),
        ensures
            final(self).wf(),
            removed == old(self)@.contains_key(nonce@),
            final(self)@ == old(self)@.remove(nonce@),
    {
        let ghost old_s = self.entries@;
        proof {
            lemma_table(old_s);
        }
        match self.position(nonce) {
            Some(i) => {
                self.entries.remove(i);
                let ghost s = self.entries@;
                proof {
                    assert(s == old_s.remove(i as int));
                    assert forall|a: int| 0 <= a < s.len() implies #[trigger] s[a] == old_s[if a < i {
                        a
                    } else {
                        a + 1
                    }] by {}
                    assert forall|a: int, b: int|
                        0 <= a < s.len() && 0 <= b < s.len() && a != b implies key_seq(s)[a]
                        != key_seq(s)[b] by {
                        let a2 = if a < i { a } else { a + 1 };
                        let b2 = if b < i { b } else { b + 1 };
                        assert(s[a] == old_s[a2]);
                        assert(s[b] == old_s[b2]);
                        assert(key_seq(s)[a] == s[a].0@);
                        assert(key_seq(s)[b] == s[b].0@);
                        assert(key_seq(old_s)[a2] == old_s[a2].0@);
                        assert(key_seq(old_s)[b2] == old_s[b2].0@);
                    }
                    lemma_table(s);
                    assert forall|k: Seq<char>| #[trigger] table_of(s).contains_key(k)
                        == table_of(old_s).remove(nonce@).contains_key(k) by {
                        if table_of(s).contains_key(k) {
                            let j = choose|j: int| 0 <= j < s.len() && s[j].0@ == k;
                            let j2 = if j < i { j } else { j + 1 };
                            assert(s[j] == old_s[j2]);
                            assert(key_seq(old_s)[j2] == old_s[j2].0@);
                            assert(key_seq(old_s)[i as int] == old_s[i as int].0@);
                        }
                        if table_of(old_s).contains_key(k) && k != nonce@ {
                            let j = choose|j: int| 0 <= j < old_s.len() && old_s[j].0@ == k;
                            let j2 = if j < i { j } else { j - 1 };
                            assert(s[j2] == old_s[j]);
                        }
                    }
                    assert forall|k: Seq<char>| #[trigger] table_of(s).contains_key(k) implies
                        table_of(s)[k] == table_of(old_s)[k] by {
                        let j = choose|j: int| 0 <= j < s.len() && s[j].0@ == k;
                        let j2 = if j < i { j } else { j + 1 };
                        assert(s[j] == old_s[j2]);
                    }
                    assert(table_of(s) =~= table_of(old_s).remove(nonce@));
                }
                true
            },
            None => {
                assert(table_of(old_s).remove(nonce@) =~= table_of(old_s));
                false
            },
        }
    }

    /// Drops the challenges that are no longer fresh at `now`.
    fn cleanup_expired_at(&mut self, now: i64)
        requires
            old(self).wf(),
        ensures
            final(self).wf(),
            final(self)@ == fresh_at(old(self)@, now),
    {
        let ghost old_s = self.entries@;
        proof {
            lemma_table(old_s);
        }
        let mut kept: Vec<(String, i64)> = Vec::new();
        let ghost mut idx: Seq<int> = Seq::empty();
        let mut i: usize = 0;
        while i < self.entries.len()
            invariant
                self.entries@ == old_s,
                i <= old_s.len(),
                idx.len() == kept@.len(),
                forall|a: int|
                    0 <= a < idx.len() ==> 0 <= #[trigger] idx[a] < i && kept@[a] == old_s[idx[a]]
                        && challenge_fresh(now, old_s[idx[a]].1),
                forall|a: int, b: int| 0 <= a < b < idx.len() ==> idx[a] < idx[b],
                forall|j: int|
                    0 <= j < i && challenge_fresh(now, #[trigger] old_s[j].1) ==> exists|a: int|
                        0 <= a < idx.len() && idx[a] == j,
            decreases old_s.len() - i,
        {
            let issued = self.entries[i].1;
            let d: i128 = (now as i128) - (issued as i128);
            let ghost prev = idx;
            if -120 <= d && d <= 120 {
                let nonce = self.entries[i].0.clone();
                kept.push((nonce, issued));
                proof {
                    idx = idx.push(i as int);
                    assert(idx[idx.len() - 1] == i);
                }
            }
            proof {
                assert forall|j: int|
                    0 <= j < i + 1 && challenge_fresh(now, #[trigger] old_s[j].1) implies exists|a: int|
                    0 <= a < idx.len() && idx[a] == j by {
                    if j < i {
                        let a = choose|a: int| 0 <= a < prev.len() && prev[a] == j;
                        assert(idx[a] == prev[a]);
                    } else {
                        assert(idx[idx.len() - 1] == j);
                    }
                }
            }
            i = i + 1;
        }
        let ghost s = kept@;
        proof {
            assert forall|a: int, b: int|
                0 <= a < s.len() && 0 <= b < s.len() && a != b implies key_seq(s)[a] != key_seq(
                s,
            )[b] by {
                assert(key_seq(s)[a] == s[a].0@);
                assert(key_seq(s)[b] == s[b].0@);
                assert(key_seq(old_s)[idx[a]] == old_s[idx[a]].0@);
                assert(key_seq(old_s)[idx[b]] == old_s[idx[b]].0@);
                if a < b {
                    assert(idx[a] < idx[b]);
                } else {
                    assert(idx[b] < idx[a]);
                }
            }
            lemma_table(s);
            let m = table_of(old_s);
            assert forall|k: Seq<char>| #[trigger] table_of(s).contains_key(k) == fresh_at(
                m,
                now,
            ).contains_key(k) by {
                if table_of(s).contains_key(k) {
                    let a = choose|a: int| 0 <= a < s.len() && s[a].0@ == k;
                    assert(m.contains_key(old_s[idx[a]].0@));
                }
                if m.contains_key(k) && challenge_fresh(now, m[k]) {
                    let j = choose|j: int| 0 <= j < old_s.len() && old_s[j].0@ == k;
                    assert(challenge_fresh(now, old_s[j].1));
                    let a = choose|a: int| 0 <= a < idx.len() && idx[a] == j;
                    assert(s[a].0@ == k);
                }
            }
            assert forall|k: Seq<char>| #[trigger] table_of(s).contains_key(k) implies table_of(
                s,
            )[k] == fresh_at(m, now)[k] by {
                let a = choose|a: int| 0 <= a < s.len() && s[a].0@ == k;
                assert(m.contains_key(old_s[idx[a]].0@));
            }
            assert(table_of(s) =~= fresh_at(m, now));
        }
        self.entries = kept;
    }

    /// Drops the oldest challenges until at most `max` are left.
    fn cap_oldest_to(&mut self, max: usize)
        requires
            old(self).wf(),
        ensures
            final(self).wf(),
            final(self)@.dom().finite(),
            kept_from(final(self)@, old(self)@),
            dropped_oldest(final(self)@, old(self)@),
            final(self)@.len() == (if old(self)@.len() <= max {
                old(self)@.len()
            } else {
                max as nat
            }),
            old(self)@.len() <= max ==> final(self)@ == old(self)@,
    {
        let ghost old_m = self@;
        proof {
            lemma_table(self.entries@);
        }
        while self.entries.len() > max
            invariant
                self.wf(),
                self@.dom().finite(),
                self@.len() == self.entries@.len(),
                kept_from(self@, old_m),
                dropped_oldest(self@, old_m),
                self@.len() == old_m.len() || self@.len() >= max,
                self@.len() <= old_m.len(),
                old_m.len() <= max ==> self@ == old_m,
            decreases self.entries@.len(),
        {
            let mut m: usize = 0;
            let mut j: usize = 1;
            while j < self.entries.len()
                invariant
                    m < j <= self.entries@.len(),
                    forall|t: int| 0 <= t < j ==> self.entries@[m as int].1 <= #[trigger] self.entries@[t].1,
                decreases self.entries@.len() - j,
            {
                if self.entries[j].1 < self.entries[m].1 {
                    m = j;
                }
                j = j + 1;
            }
            let key = self.entries[m].0.clone();
            let ghost before = self@;
            let ghost s = self.entries@;
            proof {
                lemma_table(s);
                assert(key@ == s[m as int].0@);
                assert(table_of(s).contains_key(s[m as int].0@));
                assert(before[key@] == s[m as int].1);
                assert forall|b: Seq<char>| #[trigger] before.contains_key(b) implies before[key@]
                    <= before[b] by {
                    let t = choose|t: int| 0 <= t < s.len() && s[t].0@ == b;
                    assert(table_of(s).contains_key(s[t].0@));
                    assert(before[b] == s[t].1);
                    assert(s[m as int].1 <= s[t].1);
                }
            }
            self.remove(&key);
            proof {
                lemma_table(self.entries@);
                assert(self@.dom() =~= before.dom().remove(key@));
            }
        }
    }

}

/// Issued challenges: nonce to issue time (Unix seconds).
pub struct ChallengeStore {
    table: ChallengeTable,
}

impl View for ChallengeStore {
    type V = Map<Seq<char>, i64>;

    closed spec fn view(&self) -> Map<Seq<char>, i64> {
        self.table@
    }
}

impl ChallengeStore {
    /// The nonces are distinct.
    #[verifier::type_invariant]
    spec fn inv(self) -> bool {
        self.table.wf()
    }

    /// Hands out the table, leaving an empty one behind.
    fn take_table(&mut self) -> (t: ChallengeTable)
        ensures
            t.wf(),
            t@ == old(self)@,
    {
        proof {
            use_type_invariant(&*self);
        }
        let mut t = ChallengeTable::new();
        std::mem::swap(&mut t, &mut self.table);
        t
    }

    /// An empty store.
    pub fn new() -> (r: Self)
        ensures
            r@ == Map::<Seq<char>, i64>::empty(),
    {
        ChallengeStore { table: ChallengeTable::new() }
    }

    /// The number of challenges held.
    pub fn len(&self) -> (n: usize)
        ensures
            self@.dom().finite(),
            n == self@.len(),
    {
        proof {
            use_type_invariant(self);
        }
        self.table.len()
    }

    /// The issue time recorded for `nonce`, if any.
    pub fn get(&self, nonce: &String) -> (r: Option<i64>)
        ensures
            r == (if self@.contains_key(nonce@) {
                Some(self@[nonce@])
            } else {
                None::<i64>
            }),
    {
        proof {
            use_type_invariant(self);
        }
        self.table.get(nonce)
    }

    /// Records `nonce` as issued at `issued`, replacing an earlier record of
    /// the same nonce.
    pub fn insert(&mut self, nonce: String, issued: i64)
        ensures
            final(self)@ == old(self)@.insert(nonce@, issued),
    {
        let mut t = self.take_table();
        t.insert(nonce, issued);
        self.table = t;
    }

    /// Removes `nonce`; true exactly when it was present.
    pub fn remove(&mut self, nonce: &String) -> (removed: bool)
        ensures
            removed == old(self)@.contains_key(nonce@),
            final(self)@ == old(self)@.remove(nonce@),
    {
        let mut t = self.take_table();
        let removed = t.remove(nonce);
        self.table = t;
        removed
    }

    /// Drops the challenges that are no longer fresh at `now`.
    pub fn cleanup_expired_at(&mut self, now: i64)
        ensures
            final(self)@ == fresh_at(old(self)@, now),
    {
        let mut t = self.take_table();
        t.cleanup_expired_at(now);
        self.table = t;
    }

    /// Drops challenges that are no longer fresh now, by the system clock.
    pub fn cleanup_expired_challenges(&mut self)
        ensures
            exists|now: i64| final(self)@ == fresh_at(old(self)@, now),
    {
        let now = utc_now_timestamp();
        self.cleanup_expired_at(now);
    }

    /// Drops the oldest challenges until at most `max` are left.
    pub fn cap_oldest_to(&mut self, max: usize)
        ensures
            final(self)@.dom().finite(),
            kept_from(final(self)@, old(self)@),
            dropped_oldest(final(self)@, old(self)@),
            final(self)@.len() == (if old(self)@.len() <= max {
                old(self)@.len()
            } else {
                max as nat
            }),
            old(self)@.len() <= max ==> final(self)@ == old(self)@,
    {
        let mut t = self.take_table();
        t.cap_oldest_to(max);
        self.table = t;
    }

    /// Drops the oldest challenges beyond the store's limit.
    pub fn cap_oldest_challenges(&mut self)
        ensures
            final(self)@.dom().finite(),
            kept_from(final(self)@, old(self)@),
            dropped_oldest(final(self)@, old(self)@),
            final(self)@.len() == (if old(self)@.len() <= CHALLENGE_STORE_MAX_ENTRIES {
                old(self)@.len()
            } else {
                CHALLENGE_STORE_MAX_ENTRIES as nat
            }),
            old(self)@.len() <= CHALLENGE_STORE_MAX_ENTRIES ==> final(self)@ == old(self)@,
    {
        self.cap_oldest_to(CHALLENGE_STORE_MAX_ENTRIES);
    }

    /// Records a newly issued challenge: drops expired ones, stores the
    /// nonce, then drops the oldest beyond the store's limit.
    pub fn record_challenge(&mut self, nonce: String, issued: i64)
        ensures
            exists|now: i64|
                {
                    let m1 = #[trigger] fresh_at(old(self)@, now).insert(nonce@, issued);
                    &&& kept_from(final(self)@, m1)
                    &&& dropped_oldest(final(self)@, m1)
                    &&& (m1.len() <= CHALLENGE_STORE_MAX_ENTRIES ==> final(self)@ == m1)
                },
    {
        let ghost m0 = self@;
        let now = utc_now_timestamp();
        self.cleanup_expired_at(now);
        self.insert(nonce, issued);
        let ghost m1 = self@;
        self.cap_oldest_challenges();
        assert(m1 == fresh_at(m0, now).insert(nonce@, issued));
    }
}

/// The store that challenge issuing and verification share: empty at start.
pub fn challenge_store() -> (r: ChallengeStore)
    ensures
        r@ == Map::<Seq<char>, i64>::empty(),
{
    ChallengeStore::new()
}

/// A nonce is accepted once: after it has been consumed, consuming it again
/// finds nothing.
pub proof fn law_challenge_consumed_once(m: Map<Seq<char>, i64>, nonce: Seq<char>)
    ensures
        !m.remove(nonce).contains_key(nonce),
{
}

/// A nonce just recorded can be consumed, unless the store was over its
/// limit and the nonce was among the oldest.
pub proof fn law_recorded_challenge_consumable(
    m: Map<Seq<char>, i64>,
    now: i64,
    nonce: Seq<char>,
    issued: i64,
)
    ensures
        fresh_at(m, now).insert(nonce, issued).contains_key(nonce),
        fresh_at(m, now).insert(nonce, issued)[nonce] == issued,
{
}

/// `char::is_control`: the general category Cc.
pub open spec fn is_control(c: char) -> bool {
    c <= '\u{1f}' || ('\u{7f}' <= c && c <= '\u{9f}')
}

/// Longest display name, in characters, accepted at sign-up by key.
pub const MAX_DISPLAY_NAME_LEN: usize = 64;

/// The display name sent with a signed challenge: trimmed, and absent when
/// blank; refused when too long or holding a control character.
pub open spec fn display_name_spec(d: Option<Seq<char>>) -> Result<Option<Seq<char>>, Seq<char>> {
    match d {
        None => Ok(None),
        Some(raw) => {
            let t = trim_spec(raw);
            if t.len() == 0 {
                Ok(None)
            } else if t.len() > 64 {
                Err("Display name is too long"@)
            } else if exists|i: int| 0 <= i < t.len() && is_control(#[trigger] t[i]) {
                Err("Display name contains invalid characters"@)
            } else {
                Ok(Some(t))
            }
        },
    }
}

pub fn normalize_verify_display_name(display_name: Option<&str>) -> (r: Result<
    Option<String>,
    ApiError,
>)
    ensures
        match r {
            Ok(o) => display_name_spec(ostr_view(display_name)) == Ok::<Option<Seq<char>>, Seq<char>>(
                ostring_view(o),
            ),
            Err(e) => display_name_spec(ostr_view(display_name)) matches Err(msg) && is_bad_request(
                e,
                msg,
            ),
        },
{
    let raw = match display_name {
        None => return Ok(None),
        Some(d) => d,
    };
    let t = trim(&chars_of(raw));
    if t.len() == 0 {
        return Ok(None);
    }
    if t.len() > MAX_DISPLAY_NAME_LEN {
        return Err(bad_request("Display name is too long"));
    }
    let mut i: usize = 0;
    while i < t.len()
        invariant
            i <= t@.len(),
            t@ == trim_spec(raw@),
            ostr_view(display_name) == Some(raw@),
            0 < t@.len() <= 64,
            forall|k: int| 0 <= k < i ==> !is_control(#[trigger] t@[k]),
        decreases t.len() - i,
    {
        let c = t[i];
        if c <= '\u{1f}' || ('\u{7f}' <= c && c <= '\u{9f}') {
            assert(is_control(trim_spec(raw@)[i as int]));
            return Err(bad_request("Display name contains invalid characters"));
        }
        i = i + 1;
    }
    Ok(Some(string_from_chars(&t)))
}

/// An Ed25519 public key in text: 64 hexadecimal digits (32 bytes).
pub fn verify_public_key_length(public_key: &str) -> (r: Result<(), ApiError>)
    ensures
        r is Ok <==> (public_key@.len() == 64 && forall|i: int|
            0 <= i < 64 ==> is_hex_char(#[trigger] public_key@[i])),
        r matches Err(e) ==> is_bad_request(e, "Invalid public key"@),
{
    let v = chars_of(public_key);
    if v.len() != 64 {
        return Err(bad_request("Invalid public key"));
    }
    let mut i: usize = 0;
    while i < v.len()
        invariant
            i <= v@.len(),
            v@ == public_key@,
            v@.len() == 64,
            forall|k: int| 0 <= k < i ==> is_hex_char(#[trigger] v@[k]),
        decreases v.len() - i,
    {
        let c = v[i];
        if !(('0' <= c && c <= '9') || ('a' <= c && c <= 'f') || ('A' <= c && c <= 'F')) {
            assert(!is_hex_char(v@[i as int]));
            return Err(bad_request("Invalid public key"));
        }
        i = i + 1;
    }
    Ok(())
}

pub open spec fn is_hex_char(c: char) -> bool {
    ('0' <= c && c <= '9') || ('a' <= c && c <= 'f') || ('A' <= c && c <= 'F')
}

/// A public key to attach to an account: exactly 64 hexadecimal digits.
pub fn validate_attached_public_key(public_key: &str) -> (r: Result<(), ApiError>)
    ensures
        r is Ok <==> (public_key@.len() == 64 && forall|i: int|
            0 <= i < 64 ==> is_hex_char(#[trigger] public_key@[i])),
        r matches Err(e) ==> is_bad_request(
            e,
            "Invalid public key format (expected 64 hex characters)"@,
        ),
{
    let v = chars_of(public_key);
    let mut ok = v.len() == 64;
    let mut i: usize = 0;
    while ok && i < v.len()
        invariant
            i <= v@.len(),
            v@ == public_key@,
            ok ==> v@.len() == 64,
            ok ==> forall|k: int| 0 <= k < i ==> is_hex_char(#[trigger] v@[k]),
            !ok ==> !(v@.len() == 64 && forall|k: int| 0 <= k < 64 ==> is_hex_char(#[trigger] v@[k])),
        decreases v.len() - i,
    {
        let c = v[i];
        if !(('0' <= c && c <= '9') || ('a' <= c && c <= 'f') || ('A' <= c && c <= 'F')) {
            assert(!is_hex_char(v@[i as int]));
            ok = false;
        }
        i = i + 1;
    }
    if !ok {
        return Err(bad_request("Invalid public key format (expected 64 hex characters)"));
    }
    Ok(())
}

spec fn table_insert(s: Seq<(String, i64)>, k: Seq<char>, v: i64) -> Map<Seq<char>, i64> {
    table_of(s).insert(k, v)
}


// ---------------------------------------------------------------------------
// The checks of a signed challenge, in order
// ---------------------------------------------------------------------------

/// The message of the first check a sign-in request fails before its nonce
/// is looked at: the username (whose rule lives in another crate, so its
/// verdict is given), the display name, then the key. `None` when all pass.
pub open spec fn precheck_error(username_valid: bool, display_name: Option<Seq<char>>, public_key: Seq<char>) -> Option<Seq<char>> {
    if !username_valid {
        Some("Username must be between 2 and 32 valid characters"@)
    } else if display_name_spec(display_name) is Err {
        Some(display_name_spec(display_name)->Err_0)
    } else if !(public_key.len() == 64 && forall|i: int| 0 <= i < 64 ==> is_hex_char(#[trigger] public_key[i])) {
        Some("Invalid public key"@)
    } else {
        None
    }
}

/// The challenges left after a sign-in request: the nonce is consumed once
/// the earlier checks pass, whatever comes of it.
pub open spec fn precheck_store(
    m: Map<Seq<char>, i64>,
    username_valid: bool,
    display_name: Option<Seq<char>>,
    public_key: Seq<char>,
    nonce: Seq<char>,
) -> Map<Seq<char>, i64> {
    if precheck_error(username_valid, display_name, public_key) is Some {
        m
    } else {
        m.remove(nonce)
    }
}

/// A sign-in request gets as far as its signature: the checks pass and its
/// nonce was issued and not yet used.
pub open spec fn precheck_accepts(
    m: Map<Seq<char>, i64>,
    username_valid: bool,
    display_name: Option<Seq<char>>,
    public_key: Seq<char>,
    nonce: Seq<char>,
) -> bool {
    precheck_error(username_valid, display_name, public_key) is None && m.contains_key(nonce)
}

/// Consumes a sign-in nonce: it must have been issued and not yet used;
/// it is gone afterwards either way.
pub fn consume_challenge(store: &mut ChallengeStore, nonce: &String) -> (r: Result<(), ApiError>)
    ensures
        final(store)@ == old(store)@.remove(nonce@),
        r is Ok <==> old(store)@.contains_key(nonce@),
        r matches Err(e) ==> e is Unauthorized,
{
    if store.remove(nonce) {
        Ok(())
    } else {
        Err(ApiError::Unauthorized)
    }
}

/// The checks of a signed challenge made before its signature is read:
/// username, display name, key, then the nonce, consumed only once the
/// others pass. Gives the normalized display name.
pub fn verify_precheck(
    store: &mut ChallengeStore,
    username_valid: bool,
    display_name: Option<&str>,
    public_key: &str,
    nonce: &String,
) -> (r: Result<Option<String>, ApiError>)
    ensures
        final(store)@ == precheck_store(old(store)@, username_valid, ostr_view(display_name), public_key@, nonce@),
        r is Ok <==> precheck_accepts(old(store)@, username_valid, ostr_view(display_name), public_key@, nonce@),
        precheck_error(username_valid, ostr_view(display_name), public_key@) matches Some(msg)
            ==> r matches Err(e) && is_bad_request(e, msg),
        precheck_error(username_valid, ostr_view(display_name), public_key@) is None
            ==> (r matches Err(e) ==> e is Unauthorized),
        r matches Ok(o) ==> display_name_spec(ostr_view(display_name)) == Ok::<Option<Seq<char>>, Seq<char>>(ostring_view(o)),
{
    if !username_valid {
        return Err(bad_request("Username must be between 2 and 32 valid characters"));
    }
    let normalized = normalize_verify_display_name(display_name)?;
    verify_public_key_length(public_key)?;
    consume_challenge(store, nonce)?;
    Ok(normalized)
}

/// A nonce is good for one sign-in: once a request with it has passed the
/// earlier checks, the nonce is gone whatever came of that request, and a
/// second request with it is refused, as long as the nonce is not issued
/// again in between.
pub proof fn law_replayed_nonce_refused(
    m: Map<Seq<char>, i64>,
    username_valid: bool,
    display_name: Option<Seq<char>>,
    public_key: Seq<char>,
    username_valid2: bool,
    display_name2: Option<Seq<char>>,
    public_key2: Seq<char>,
    nonce: Seq<char>,
)
    requires
        precheck_error(username_valid, display_name, public_key) is None,
    ensures
        !precheck_store(m, username_valid, display_name, public_key, nonce).contains_key(nonce),
        !precheck_accepts(
            precheck_store(m, username_valid, display_name, public_key, nonce),
            username_valid2,
            display_name2,
            public_key2,
            nonce,
        ),
{
}

} // verus!
