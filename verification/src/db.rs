//! The shared key/value state.
//!
//! `Store` is the state one server guards with its mutex: the entries, the
//! expiration pairs that mirror every entry with a time to live, the pub/sub
//! endpoints, and the shutdown flag. Instants are milliseconds on the
//! server's monotonic clock; the caller reads the clock and passes `now` in,
//! so every method is a plain state transformer and is verified for every
//! clock value.

use vstd::prelude::*;

verus! {

/// A stored value and the instant at which it expires, if any.
pub struct Entry {
    pub data: Vec<u8>,
    pub expires_at: Option<u64>,
}

/// The mathematical shape of an entry.
pub struct EntryView {
    pub data: Seq<u8>,
    pub expires_at: Option<u64>,
}

impl View for Entry {
    type V = EntryView;

    open spec fn view(&self) -> EntryView {
        EntryView { data: self.data@, expires_at: self.expires_at }
    }
}

/// Server state shared across all connections.
pub struct Store {
    /// Key/value data; keys are kept unique.
    pub entries: Vec<(Vec<u8>, Entry)>,
    /// One `(instant, key)` pair for each entry that has an expiry.
    pub expirations: Vec<(u64, Vec<u8>)>,
    /// Pub/sub key space: one broadcast endpoint per channel in use.
    pub pub_sub: Vec<(Vec<u8>, tokio::sync::broadcast::Sender<Vec<u8>>)>,
    /// Set once the store is shutting down; the eviction task exits on it.
    pub shutdown: bool,
}

/// The mapping that the entry list stands for.
pub open spec fn kv_map(s: Seq<(Vec<u8>, Entry)>) -> Map<Seq<u8>, EntryView>
    decreases s.len(),
{
    if s.len() == 0 {
        Map::empty()
    } else {
        kv_map(s.drop_last()).insert(s.last().0@, s.last().1@)
    }
}

pub open spec fn keys_unique(s: Seq<(Vec<u8>, Entry)>) -> bool {
    forall|i: int, j: int| #![trigger s[i], s[j]] 0 <= i < j < s.len() ==> s[i].0@ != s[j].0@
}

/// The smallest instant among the expiration pairs.
pub open spec fn exp_min(s: Seq<(u64, Vec<u8>)>) -> Option<u64>
    decreases s.len(),
{
    if s.len() == 0 {
        None
    } else {
        match exp_min(s.drop_last()) {
            None => Some(s.last().0),
            Some(m) => if s.last().0 < m {
                Some(s.last().0)
            } else {
                Some(m)
            },
        }
    }
}

/// The pair `(t, k)` stands among the expiration pairs.
pub open spec fn exp_contains(s: Seq<(u64, Vec<u8>)>, t: u64, k: Seq<u8>) -> bool {
    exists|i: int| 0 <= i < s.len() && s[i].0 == t && s[i].1@ == k
}

pub proof fn lemma_kv_map_index(s: Seq<(Vec<u8>, Entry)>, i: int)
    requires
        keys_unique(s),
        0 <= i < s.len(),
    ensures
        kv_map(s).contains_key(s[i].0@),
        kv_map(s)[s[i].0@] == s[i].1@,
    decreases s.len(),
{
    if i == s.len() - 1 {
    } else {
        let d = s.drop_last();
        assert(keys_unique(d)) by {
            assert forall|x: int, y: int| #![trigger d[x], d[y]] 0 <= x < y < d.len() implies d[x].0@
                != d[y].0@ by {
                assert(s[x] == d[x]);
                assert(s[y] == d[y]);
            }
        }
        lemma_kv_map_index(d, i);
        assert(s[i] == d[i]);
        assert(s.last().0@ != s[i].0@);
    }
}

pub proof fn lemma_kv_map_absent(s: Seq<(Vec<u8>, Entry)>, k: Seq<u8>)
    requires
        forall|i: int| 0 <= i < s.len() ==> (#[trigger] s[i]).0@ != k,
    ensures
        !kv_map(s).contains_key(k),
    decreases s.len(),
{
    if s.len() > 0 {
        let d = s.drop_last();
        assert forall|i: int| 0 <= i < d.len() implies (#[trigger] d[i]).0@ != k by {
            assert(s[i] == d[i]);
        }
        lemma_kv_map_absent(d, k);
    }
}

pub proof fn lemma_kv_map_push(s: Seq<(Vec<u8>, Entry)>, p: (Vec<u8>, Entry))
    ensures
        kv_map(s.push(p)) == kv_map(s).insert(p.0@, p.1@),
{
    assert(s.push(p).drop_last() =~= s);
    assert(s.push(p).last() == p);
}

pub proof fn lemma_kv_map_update(s: Seq<(Vec<u8>, Entry)>, i: int, p: (Vec<u8>, Entry))
    requires
        keys_unique(s),
        0 <= i < s.len(),
        s[i].0@ == p.0@,
    ensures
        kv_map(s.update(i, p)) == kv_map(s).insert(p.0@, p.1@),
    decreases s.len(),
{
    let u = s.update(i, p);
    if i == s.len() - 1 {
        assert(u.drop_last() =~= s.drop_last());
        assert(u.last() == p);
        assert(kv_map(u) == kv_map(s.drop_last()).insert(p.0@, p.1@));
        assert(kv_map(s.drop_last()).insert(s.last().0@, s.last().1@).insert(p.0@, p.1@)
            =~= kv_map(s.drop_last()).insert(p.0@, p.1@));
    } else {
        let d = s.drop_last();
        assert(keys_unique(d)) by {
            assert forall|x: int, y: int| #![trigger d[x], d[y]] 0 <= x < y < d.len() implies d[x].0@
                != d[y].0@ by {
                assert(s[x] == d[x]);
                assert(s[y] == d[y]);
            }
        }
        assert(d[i] == s[i]);
        lemma_kv_map_update(d, i, p);
        assert(u.drop_last() =~= d.update(i, p));
        assert(u.last() == s.last());
        assert(kv_map(u) == kv_map(d).insert(p.0@, p.1@).insert(s.last().0@, s.last().1@));
        assert(s.last().0@ != p.0@);
        assert(kv_map(d).insert(p.0@, p.1@).insert(s.last().0@, s.last().1@) =~= kv_map(d).insert(
            s.last().0@,
            s.last().1@,
        ).insert(p.0@, p.1@));
    }
}

pub proof fn lemma_kv_map_remove(s: Seq<(Vec<u8>, Entry)>, i: int)
    requires
        keys_unique(s),
        0 <= i < s.len(),
    ensures
        kv_map(s.remove(i)) == kv_map(s).remove(s[i].0@),
    decreases s.len(),
{
    let r = s.remove(i);
    if i == s.len() - 1 {
        assert(r =~= s.drop_last());
        let d = s.drop_last();
        assert forall|j: int| 0 <= j < d.len() implies (#[trigger] d[j]).0@ != s[i].0@ by {
            assert(s[j] == d[j]);
        }
        lemma_kv_map_absent(d, s[i].0@);
        assert(kv_map(d).insert(s.last().0@, s.last().1@).remove(s[i].0@) =~= kv_map(d));
    } else {
        let d = s.drop_last();
        assert(keys_unique(d)) by {
            assert forall|x: int, y: int| #![trigger d[x], d[y]] 0 <= x < y < d.len() implies d[x].0@
                != d[y].0@ by {
                assert(s[x] == d[x]);
                assert(s[y] == d[y]);
            }
        }
        assert(d[i] == s[i]);
        lemma_kv_map_remove(d, i);
        assert(r.drop_last() =~= d.remove(i));
        assert(r.last() == s.last());
        assert(kv_map(r) == kv_map(d).remove(s[i].0@).insert(s.last().0@, s.last().1@));
        assert(s.last().0@ != s[i].0@);
        assert(kv_map(d).remove(s[i].0@).insert(s.last().0@, s.last().1@) =~= kv_map(d).insert(
            s.last().0@,
            s.last().1@,
        ).remove(s[i].0@));
    }
}

/// What `exp_min` means: the minimum over the pairs.
pub proof fn lemma_exp_min(s: Seq<(u64, Vec<u8>)>)
    ensures
        match exp_min(s) {
            None => s.len() == 0,
            Some(w) => {
                &&& exists|i: int| 0 <= i < s.len() && (#[trigger] s[i]).0 == w
                &&& forall|i: int| 0 <= i < s.len() ==> (#[trigger] s[i]).0 >= w
            },
        },
    decreases s.len(),
{
    if s.len() > 0 {
        let d = s.drop_last();
        lemma_exp_min(d);
        match exp_min(d) {
            None => {
                assert(s[s.len() - 1].0 == exp_min(s)->0);
            },
            Some(m) => {
                let w = exp_min(s)->0;
                if s.last().0 < m {
                    assert(s[s.len() - 1].0 == w);
                } else {
                    let i = choose|i: int| 0 <= i < d.len() && (#[trigger] d[i]).0 == m;
                    assert(s[i] == d[i]);
                }
                assert forall|i: int| 0 <= i < s.len() implies (#[trigger] s[i]).0 >= w by {
                    if i < s.len() - 1 {
                        assert(d[i] == s[i]);
                    }
                }
            },
        }
    }
}

/// How many subscribers a broadcast send reached: the count the endpoint
/// reports, or none when it had no receivers.
pub fn delivered_count(
    outcome: Result<usize, tokio::sync::broadcast::error::SendError<Vec<u8>>>,
) -> (r: usize)
    ensures
        match outcome {
            Ok(n) => r == n,
            Err(_) => r == 0,
        },
{
    match outcome {
        Ok(count) => count,
        Err(_) => 0,
    }
}

/// Byte-for-byte equality of two byte strings.
pub fn bytes_eq(a: &[u8], b: &[u8]) -> (r: bool)
    ensures
        r == (a@ == b@),
{
    if a.len() != b.len() {
        return false;
    }
    let mut i: usize = 0;
    while i < a.len()
        invariant
            i <= a@.len(),
            a@.len() == b@.len(),
            forall|j: int| 0 <= j < i ==> a@[j] == b@[j],
        decreases a@.len() - i,
    {
        if a[i] != b[i] {
            return false;
        }
        i = i + 1;
    }
    proof {
        assert(a@ =~= b@);
    }
    true
}

impl Store {
    /// The key/value mapping this store holds.
    pub open spec fn entries_map(self) -> Map<Seq<u8>, EntryView> {
        kv_map(self.entries@)
    }

    /// The earliest expiration instant, if any entry has one.
    pub open spec fn next_expiration(self) -> Option<u64> {
        exp_min(self.expirations@)
    }

    /// A pub/sub endpoint exists for this channel.
    pub open spec fn has_channel(self, ch: Seq<u8>) -> bool {
        exists|i: int| 0 <= i < self.pub_sub@.len() && (#[trigger] self.pub_sub@[i]).0@ == ch
    }

    /// The store's invariant: keys unique, and `expirations` holds exactly
    /// one `(instant, key)` pair for each entry whose `expires_at` is set,
    /// with the matching instant.
    pub open spec fn wf(self) -> bool {
        &&& keys_unique(self.entries@)
        &&& forall|i: int|
            0 <= i < self.expirations@.len() ==> {
                &&& self.entries_map().contains_key((#[trigger] self.expirations@[i]).1@)
                &&& self.entries_map()[self.expirations@[i].1@].expires_at == Some(
                    self.expirations@[i].0,
                )
            }
        &&& forall|j: int|
            0 <= j < self.entries@.len() && (#[trigger] self.entries@[j]).1.expires_at is Some
                ==> exp_contains(
                self.expirations@,
                self.entries@[j].1.expires_at->0,
                self.entries@[j].0@,
            )
        &&& forall|i: int, j: int|
            #![trigger self.expirations@[i], self.expirations@[j]]
            0 <= i < j < self.expirations@.len() ==> self.expirations@[i].1@
                != self.expirations@[j].1@
        &&& forall|i: int, j: int|
            #![trigger self.pub_sub@[i], self.pub_sub@[j]]
            0 <= i < j < self.pub_sub@.len() ==> self.pub_sub@[i].0@ != self.pub_sub@[j].0@
    }

    /// A new, empty store.
    pub fn new() -> (s: Store)
        ensures
            s.wf(),
            s.entries_map() == Map::<Seq<u8>, EntryView>::empty(),
            s.next_expiration() is None,
            forall|ch: Seq<u8>| !s.has_channel(ch),
            !s.shutdown,
    {
        Store { entries: Vec::new(), expirations: Vec::new(), pub_sub: Vec::new(), shutdown: false }
    }

    /// Get the value associated with a key.
    pub fn get(&self, key: &[u8]) -> (r: Option<Vec<u8>>)
        requires
            self.wf(),
        ensures
            match r {
                Some(v) => self.entries_map().contains_key(key@) && v@ == self.entries_map()[key@]
                    .data,
                None => !self.entries_map().contains_key(key@),
            },
    {
        let n = self.entries.len();
        let mut i: usize = 0;
        while i < n
            invariant
                self.wf(),
                n == self.entries@.len(),
                i <= n,
                forall|j: int| 0 <= j < i ==> (#[trigger] self.entries@[j]).0@ != key@,
            decreases n - i,
        {
            if bytes_eq(self.entries[i].0.as_slice(), key) {
                proof {
                    lemma_kv_map_index(self.entries@, i as int);
                }
                return Some(vstd::slice::slice_to_vec(self.entries[i].1.data.as_slice()));
            }
            i = i + 1;
        }
        proof {
            lemma_kv_map_absent(self.entries@, key@);
        }
        None
    }

    /// The earliest expiration instant, by scanning the pairs.
    #[verifier::loop_isolation(false)]
    fn min_expiration(&self) -> (r: Option<u64>)
        ensures
            r == self.next_expiration(),
    {
        let n = self.expirations.len();
        let mut acc: Option<u64> = None;
        let mut i: usize = 0;
        proof {
            assert(self.expirations@.subrange(0, 0) =~= Seq::<(u64, Vec<u8>)>::empty());
        }
        while i < n
            invariant
                i <= n,
                acc == exp_min(self.expirations@.subrange(0, i as int)),
            decreases n - i,
        {
            let t = self.expirations[i].0;
            acc = match acc {
                None => Some(t),
                Some(m) => if t < m {
                    Some(t)
                } else {
                    Some(m)
                },
            };
            proof {
                assert(self.expirations@.subrange(0, i + 1).drop_last() =~= self.expirations@
                    .subrange(0, i as int));
            }
            i = i + 1;
        }
        proof {
            assert(self.expirations@.subrange(0, n as int) =~= self.expirations@);
        }
        acc
    }

    /// Set the value for a key, with an optional time to live in
    /// milliseconds from `now`.
    ///
    /// Returns true exactly when the eviction task must be woken: the new
    /// entry expires strictly earlier than everything known before the
    /// call, or nothing had an expiry at all.
    #[verifier::loop_isolation(false)]
    pub fn set(&mut self, key: Vec<u8>, data: Vec<u8>, expire: Option<u64>, now: u64) -> (notify:
        bool)
        requires
            old(self).wf(),
            (expire matches Some(d) ==> now + d <= u64::MAX),
        ensures
            final(self).wf(),
            final(self).entries_map() == old(self).entries_map().insert(
                key@,
                (EntryView {
                    data: data@,
                    expires_at: match expire {
                        Some(d) => Some((now + d) as u64),
                        None => None,
                    },
                }),
            ),
            notify == (match expire {
                Some(d) => match old(self).next_expiration() {
                    None => true,
                    Some(m) => (now + d) < m,
                },
                None => false,
            }),
            final(self).pub_sub == old(self).pub_sub,
            final(self).shutdown == old(self).shutdown,
    {
        let ghost gk = key@;
        let mut notify = false;
        let mut expires_at: Option<u64> = None;
        if let Some(d) = expire {
            let when = now + d;
            notify = match self.min_expiration() {
                Some(m) => m > when,
                None => true,
            };
            expires_at = Some(when);
        }
        let ghost entries0 = self.entries@;
        let ghost exp0 = self.expirations@;
        let ghost map0 = kv_map(entries0);
        let ghost new_ev = EntryView { data: data@, expires_at };

        // Find any existing binding for the key.
        let n = self.entries.len();
        let mut idx: usize = 0;
        let mut present = false;
        while idx < n && !present
            invariant
                idx <= n,
                present ==> idx < n && entries0[idx as int].0@ == gk,
                !present ==> forall|j: int| 0 <= j < idx ==> (#[trigger] entries0[j]).0@ != gk,
            decreases n - idx, if present { 0int } else { 1int },
        {
            if bytes_eq(self.entries[idx].0.as_slice(), key.as_slice()) {
                present = true;
            } else {
                idx = idx + 1;
            }
        }

        let at: usize;
        let mut prev_expires: Option<u64> = None;
        if present {
            prev_expires = self.entries[idx].1.expires_at;
            self.entries.set(idx, (key, Entry { data, expires_at }));
            at = idx;
            proof {
                lemma_kv_map_update(entries0, idx as int, self.entries@[idx as int]);
            }
        } else {
            self.entries.push((key, Entry { data, expires_at }));
            at = n;
            proof {
                lemma_kv_map_push(entries0, self.entries@.last());
            }
        }
        proof {
            // the key's stale pair, if any, is the only one bearing this key
            if present {
                lemma_kv_map_index(entries0, idx as int);
            } else {
                lemma_kv_map_absent(entries0, gk);
            }
            assert(keys_unique(self.entries@)) by {
                assert forall|x: int, y: int|
                    #![trigger self.entries@[x], self.entries@[y]]
                    0 <= x < y < self.entries@.len() implies self.entries@[x].0@
                    != self.entries@[y].0@ by {
                    if x != at && y != at {
                        assert(self.entries@[x] == entries0[x]);
                        assert(self.entries@[y] == entries0[y]);
                    } else if x == at {
                        assert(self.entries@[y] == entries0[y]);
                        if present {
                            assert(entries0[x].0@ == gk);
                        }
                    } else {
                        assert(self.entries@[x] == entries0[x]);
                        if present {
                            assert(entries0[y].0@ == gk);
                        }
                    }
                }
            }
        }

        // Remove the stale expiration pair, if the prior entry had one.
        let ghost mut removed: Option<int> = None;
        if present {
            if let Some(pt) = prev_expires {
                let m = self.expirations.len();
                let mut j: usize = 0;
                let mut hit = false;
                while j < m && !hit
                    invariant
                        j <= m,
                        hit ==> j < m && exp0[j as int].0 == pt && exp0[j as int].1@ == gk,
                        !hit ==> forall|l: int|
                            0 <= l < j ==> !((#[trigger] exp0[l]).0 == pt && exp0[l].1@ == gk),
                    decreases m - j, if hit { 0int } else { 1int },
                {
                    if self.expirations[j].0 == pt && bytes_eq(
                        self.expirations[j].1.as_slice(),
                        self.entries[at].0.as_slice(),
                    ) {
                        hit = true;
                    } else {
                        j = j + 1;
                    }
                }
                proof {
                    assert(exp_contains(exp0, pt, gk));
                    if !hit {
                        let l = choose|l: int| 0 <= l < exp0.len() && exp0[l].0 == pt && exp0[l].1@
                            == gk;
                        assert(false);
                    }
                }
                if j < m {
                    self.expirations.remove(j);
                    proof {
                        removed = Some(j as int);
                    }
                } else {
                    proof {
                        assert(false);
                    }
                }
            }
        }
        let ghost exp1 = self.expirations@;
        proof {
            // every surviving pair keeps its meaning, and none bears the key
            assert forall|i: int| 0 <= i < exp1.len() implies (#[trigger] exp1[i]) == exp0[i]
                || exp1[i] == exp0[i + 1] by {}
            assert forall|i: int| 0 <= i < exp1.len() implies (#[trigger] exp1[i]).1@ != gk by {
                if present {
                    match prev_expires {
                        Some(pt) => {
                            // only one pair bears this key, and it was removed
                            if exp1[i].1@ == gk {
                                assert(map0.contains_key(exp1[i].1@));
                                assert(map0[gk].expires_at == Some(exp1[i].0));
                                assert(map0[gk] == entries0[idx as int].1@);
                            }
                        },
                        None => {
                            if exp1[i].1@ == gk {
                                assert(map0[gk].expires_at == Some(exp1[i].0));
                            }
                        },
                    }
                } else {
                    if exp1[i].1@ == gk {
                        assert(map0.contains_key(gk));
                    }
                }
            }
        }

        // Track the new entry's expiration.
        if expires_at.is_some() {
            let when = match expires_at {
                Some(w) => w,
                None => 0,
            };
            let kcopy = vstd::slice::slice_to_vec(self.entries[at].0.as_slice());
            self.expirations.push((when, kcopy));
        }

        proof {
            let expf = self.expirations@;
            let mapf = kv_map(self.entries@);
            assert(mapf == map0.insert(gk, new_ev));
            // pairs point at live entries with the matching instant
            assert forall|i: int| 0 <= i < expf.len() implies mapf.contains_key(
                (#[trigger] expf[i]).1@,
            ) && mapf[expf[i].1@].expires_at == Some(expf[i].0) by {
                if i < exp1.len() {
                    assert(expf[i] == exp1[i]);
                    assert(exp1[i].1@ != gk);
                    let k = exp1[i].1@;
                    assert(map0.contains_key(k) && map0[k].expires_at == Some(exp1[i].0));
                } else {
                    assert(expf[i].1@ == gk);
                    assert(mapf[gk] == new_ev);
                }
            }
            // every entry with an expiry has its pair
            assert forall|j: int|
                0 <= j < self.entries@.len() && (#[trigger] self.entries@[j]).1.expires_at
                    is Some implies exp_contains(
                expf,
                self.entries@[j].1.expires_at->0,
                self.entries@[j].0@,
            ) by {
                if j == at {
                    assert(expf[expf.len() - 1].0 == self.entries@[j].1.expires_at->0);
                    assert(expf[expf.len() - 1].1@ == gk);
                } else {
                    assert(self.entries@[j] == entries0[j]);
                    assert(exp_contains(exp0, entries0[j].1.expires_at->0, entries0[j].0@));
                    let l = choose|l: int|
                        0 <= l < exp0.len() && (#[trigger] exp0[l]).0 == entries0[j].1.expires_at->0
                            && exp0[l].1@ == entries0[j].0@;
                    assert(entries0[j].0@ != gk);
                    if removed is Some {
                        // one pair was removed; the witness shifts across it
                        let r = removed->0;
                        if l < r {
                            assert(exp1[l] == exp0[l]);
                            assert(exp_contains(exp1, exp0[l].0, exp0[l].1@));
                        } else {
                            assert(l != r);
                            assert(exp1[l - 1] == exp0[l]);
                            assert(exp_contains(exp1, exp0[l].0, exp0[l].1@));
                        }
                    } else {
                        assert(exp1 == exp0);
                        assert(exp_contains(exp1, exp0[l].0, exp0[l].1@));
                    }
                    assert(exp_contains(expf, exp0[l].0, exp0[l].1@)) by {
                        let w = choose|w: int|
                            0 <= w < exp1.len() && (#[trigger] exp1[w]).0 == exp0[l].0 && exp1[w].1@
                                == exp0[l].1@;
                        assert(expf[w] == exp1[w]);
                    }
                }
            }
            // pair keys stay distinct
            assert forall|x: int, y: int|
                #![trigger expf[x], expf[y]]
                0 <= x < y < expf.len() implies expf[x].1@ != expf[y].1@ by {
                if y < exp1.len() {
                    assert(expf[x] == exp1[x]);
                    assert(expf[y] == exp1[y]);
                } else {
                    assert(expf[x] == exp1[x]);
                    assert(exp1[x].1@ != gk);
                }
            }
        }
        notify
    }
}

/// The keys of `m` whose entries have expired by `now`.
pub open spec fn expired_keys(m: Map<Seq<u8>, EntryView>, now: u64) -> Set<Seq<u8>> {
    Set::new(
        |k: Seq<u8>| m.contains_key(k) && m[k].expires_at is Some && m[k].expires_at->0 <= now,
    )
}

impl Store {
    /// Drop every entry whose expiry has passed, and report the next
    /// instant at which one will; `None` when none is pending or the store
    /// is shutting down.
    #[verifier::loop_isolation(false)]
    pub fn purge_expired(&mut self, now: u64) -> (r: Option<u64>)
        requires
            old(self).wf(),
        ensures
            final(self).wf(),
            old(self).shutdown ==> *final(self) == *old(self) && r is None,
            !old(self).shutdown ==> {
                &&& final(self).entries_map() == old(self).entries_map().remove_keys(
                    expired_keys(old(self).entries_map(), now),
                )
                &&& r == final(self).next_expiration()
                &&& (r matches Some(w) ==> w > now)
                &&& final(self).pub_sub == old(self).pub_sub
                &&& final(self).shutdown == old(self).shutdown
            },
    {
        if self.shutdown {
            return None;
        }
        let ghost map0 = kv_map(self.entries@);
        let mut i: usize = 0;
        while i < self.expirations.len()
            invariant
                self.wf(),
                i <= self.expirations@.len(),
                forall|j: int| 0 <= j < i ==> (#[trigger] self.expirations@[j]).0 > now,
                forall|k: Seq<u8>|
                    #![trigger kv_map(self.entries@).contains_key(k)]
                    kv_map(self.entries@).contains_key(k) ==> map0.contains_key(k) && kv_map(
                        self.entries@,
                    )[k] == map0[k],
                forall|k: Seq<u8>|
                    #![trigger map0.contains_key(k)]
                    map0.contains_key(k) && !(map0[k].expires_at is Some && map0[k].expires_at->0
                        <= now) ==> kv_map(self.entries@).contains_key(k),
                self.pub_sub == old(self).pub_sub,
                self.shutdown == old(self).shutdown,
            decreases self.expirations@.len() - i,
        {
            if self.expirations[i].0 <= now {
                let ghost exp0 = self.expirations@;
                let ghost entries0 = self.entries@;
                let ghost gk = exp0[i as int].1@;
                // find the entry this pair points at
                let n = self.entries.len();
                let mut j: usize = 0;
                let mut hit = false;
                while j < n && !hit
                    invariant
                        j <= n,
                        hit ==> j < n && entries0[j as int].0@ == gk,
                        !hit ==> forall|l: int| 0 <= l < j ==> (#[trigger] entries0[l]).0@ != gk,
                    decreases n - j, if hit { 0int } else { 1int },
                {
                    if bytes_eq(self.entries[j].0.as_slice(), self.expirations[i].1.as_slice()) {
                        hit = true;
                    } else {
                        j = j + 1;
                    }
                }
                proof {
                    if !hit {
                        lemma_kv_map_absent(entries0, gk);
                        assert(false);
                    }
                }
                if j < n {
                    proof {
                        lemma_kv_map_remove(entries0, j as int);
                        lemma_kv_map_index(entries0, j as int);
                    }
                    self.entries.remove(j);
                    self.expirations.remove(i);
                } else {
                    proof {
                        assert(false);
                    }
                }
                proof {
                    let expf = self.expirations@;
                    let mapf = kv_map(self.entries@);
                    assert(mapf == kv_map(entries0).remove(gk));
                    // the invariant holds of the shrunk state
                    assert(keys_unique(self.entries@)) by {
                        assert forall|x: int, y: int|
                            #![trigger self.entries@[x], self.entries@[y]]
                            0 <= x < y < self.entries@.len() implies self.entries@[x].0@
                            != self.entries@[y].0@ by {
                            let x0 = if x < j { x } else { x + 1 };
                            let y0 = if y < j { y } else { y + 1 };
                            assert(self.entries@[x] == entries0[x0]);
                            assert(self.entries@[y] == entries0[y0]);
                        }
                    }
                    assert forall|l: int| 0 <= l < expf.len() implies mapf.contains_key(
                        (#[trigger] expf[l]).1@,
                    ) && mapf[expf[l].1@].expires_at == Some(expf[l].0) by {
                        let l0 = if l < i { l } else { l + 1 };
                        assert(expf[l] == exp0[l0]);
                        assert(exp0[l0].1@ != gk);
                    }
                    assert forall|m: int|
                        0 <= m < self.entries@.len() && (#[trigger] self.entries@[m]).1.expires_at
                            is Some implies exp_contains(
                        expf,
                        self.entries@[m].1.expires_at->0,
                        self.entries@[m].0@,
                    ) by {
                        let m0 = if m < j { m } else { m + 1 };
                        assert(self.entries@[m] == entries0[m0]);
                        assert(exp_contains(exp0, entries0[m0].1.expires_at->0, entries0[m0].0@));
                        let l = choose|l: int|
                            0 <= l < exp0.len() && (#[trigger] exp0[l]).0 == entries0[m0].1
                                .expires_at->0 && exp0[l].1@ == entries0[m0].0@;
                        assert(entries0[m0].0@ != gk);
                        assert(l != i);
                        let l1 = if l < i { l } else { l - 1 };
                        assert(expf[l1] == exp0[l]);
                    }
                    assert forall|x: int, y: int|
                        #![trigger expf[x], expf[y]]
                        0 <= x < y < expf.len() implies expf[x].1@ != expf[y].1@ by {
                        let x0 = if x < i { x } else { x + 1 };
                        let y0 = if y < i { y } else { y + 1 };
                        assert(expf[x] == exp0[x0]);
                        assert(expf[y] == exp0[y0]);
                    }
                }
            } else {
                i = i + 1;
            }
        }
        proof {
            let mapf = kv_map(self.entries@);
            assert(mapf =~= map0.remove_keys(expired_keys(map0, now))) by {
                assert forall|k: Seq<u8>| #![auto] mapf.contains_key(k) <==> map0.remove_keys(
                    expired_keys(map0, now),
                ).contains_key(k) by {
                    if mapf.contains_key(k) {
                        if map0[k].expires_at is Some && map0[k].expires_at->0 <= now {
                            // a live expired entry would still have its pair
                            let m = choose|m: int|
                                0 <= m < self.entries@.len() && (#[trigger] self.entries@[m]).0@
                                    == k;
                            assert(exists|m: int|
                                0 <= m < self.entries@.len() && (#[trigger] self.entries@[m]).0@
                                    == k) by {
                                if forall|m: int|
                                    0 <= m < self.entries@.len() ==> (
                                    #[trigger] self.entries@[m]).0@ != k {
                                    lemma_kv_map_absent(self.entries@, k);
                                }
                            }
                            lemma_kv_map_index(self.entries@, m);
                            assert(self.entries@[m].1.expires_at == map0[k].expires_at);
                            let l = choose|l: int|
                                0 <= l < self.expirations@.len() && (
                                #[trigger] self.expirations@[l]).0 == self.entries@[m].1
                                    .expires_at->0 && self.expirations@[l].1@ == self.entries@[m]
                                    .0@;
                            assert(self.expirations@[l].0 > now);
                            assert(false);
                        }
                    }
                }
            }
        }
        let r = self.min_expiration();
        proof {
            lemma_exp_min(self.expirations@);
            if r is Some {
                let w = r->0;
                let l = choose|l: int|
                    0 <= l < self.expirations@.len() && (#[trigger] self.expirations@[l]).0 == w;
            }
        }
        r
    }

    /// Whether the store has been told to shut down.
    pub fn is_shutdown(&self) -> (r: bool)
        ensures
            r == self.shutdown,
    {
        self.shutdown
    }

    /// Tell the eviction task to exit: set the shutdown flag. The caller
    /// signals the task after releasing its lock.
    pub fn shutdown_purge_task(&mut self)
        ensures
            final(self).shutdown,
            final(self).entries == old(self).entries,
            final(self).expirations == old(self).expirations,
            final(self).pub_sub == old(self).pub_sub,
    {
        self.shutdown = true;
    }

    /// A receiver on the channel's broadcast endpoint, creating the
    /// endpoint on first use.
    #[verifier::loop_isolation(false)]
    pub fn subscribe(&mut self, key: Vec<u8>) -> (r: tokio::sync::broadcast::Receiver<Vec<u8>>)
        requires
            old(self).wf(),
        ensures
            final(self).wf(),
            final(self).has_channel(key@),
            forall|ch: Seq<u8>| old(self).has_channel(ch) ==> final(self).has_channel(ch),
            forall|ch: Seq<u8>|
                final(self).has_channel(ch) ==> old(self).has_channel(ch) || ch == key@,
            final(self).entries == old(self).entries,
            final(self).expirations == old(self).expirations,
            final(self).shutdown == old(self).shutdown,
    {
        let ghost gk = key@;
        let ghost ps0 = self.pub_sub@;
        let n = self.pub_sub.len();
        let mut i: usize = 0;
        while i < n
            invariant
                i <= n,
                forall|j: int| 0 <= j < i ==> (#[trigger] ps0[j]).0@ != gk,
            decreases n - i,
        {
            if bytes_eq(self.pub_sub[i].0.as_slice(), key.as_slice()) {
                return self.pub_sub[i].1.subscribe();
            }
            i = i + 1;
        }
        // channel not seen before: create its endpoint with room for 1024
        // messages per receiver
        let (tx, rx) = tokio::sync::broadcast::channel(1024);
        self.pub_sub.push((key, tx));
        proof {
            assert(self.pub_sub@[ps0.len() as int].0@ == gk);
            assert forall|ch: Seq<u8>| old(self).has_channel(ch) implies self.has_channel(ch) by {
                let j = choose|j: int| 0 <= j < ps0.len() && (#[trigger] ps0[j]).0@ == ch;
                assert(self.pub_sub@[j].0@ == ch);
            }
            assert forall|x: int, y: int|
                #![trigger self.pub_sub@[x], self.pub_sub@[y]]
                0 <= x < y < self.pub_sub@.len() implies self.pub_sub@[x].0@
                != self.pub_sub@[y].0@ by {
                if y < ps0.len() {
                    assert(self.pub_sub@[x] == ps0[x]);
                    assert(self.pub_sub@[y] == ps0[y]);
                } else {
                    assert(self.pub_sub@[x] == ps0[x]);
                }
            }
        }
        rx
    }

    /// Publish a message to the channel, returning how many subscribers
    /// were handed the message; zero when the channel has no endpoint or
    /// no receivers.
    #[verifier::loop_isolation(false)]
    pub fn publish(&self, key: &[u8], value: Vec<u8>) -> (r: usize)
        requires
            self.wf(),
        ensures
            !self.has_channel(key@) ==> r == 0,
    {
        let n = self.pub_sub.len();
        let mut i: usize = 0;
        while i < n
            invariant
                i <= n,
                forall|j: int| 0 <= j < i ==> (#[trigger] self.pub_sub@[j]).0@ != key@,
            decreases n - i,
        {
            if bytes_eq(self.pub_sub[i].0.as_slice(), key) {
                return delivered_count(self.pub_sub[i].1.send(value));
            }
            i = i + 1;
        }
        0
    }
}

/// A key the mapping holds has an index in the entry list.
pub proof fn lemma_kv_index_of(s: Seq<(Vec<u8>, Entry)>, k: Seq<u8>)
    requires
        kv_map(s).contains_key(k),
    ensures
        exists|i: int| 0 <= i < s.len() && (#[trigger] s[i]).0@ == k,
{
    if forall|i: int| 0 <= i < s.len() ==> (#[trigger] s[i]).0@ != k {
        lemma_kv_map_absent(s, k);
    }
}

/// Next-expiry invariant: at any instant, the earliest expiration pair is
/// exactly the least `expires_at` over the entries — or there is no pair
/// and no entry has an expiry.
pub proof fn lemma_next_expiry_invariant(s: Store)
    requires
        s.wf(),
    ensures
        match s.next_expiration() {
            None => forall|k: Seq<u8>|
                #![auto]
                s.entries_map().contains_key(k) ==> s.entries_map()[k].expires_at is None,
            Some(w) => {
                &&& exists|k: Seq<u8>|
                    #![auto]
                    s.entries_map().contains_key(k) && s.entries_map()[k].expires_at == Some(w)
                &&& forall|k: Seq<u8>|
                    #![auto]
                    s.entries_map().contains_key(k) && s.entries_map()[k].expires_at is Some ==> w
                        <= s.entries_map()[k].expires_at->0
            },
        },
{
    lemma_exp_min(s.expirations@);
    match exp_min(s.expirations@) {
        None => {
            assert forall|k: Seq<u8>| #![auto] s.entries_map().contains_key(k) implies s
                .entries_map()[k].expires_at is None by {
                lemma_kv_index_of(s.entries@, k);
                let i = choose|i: int| 0 <= i < s.entries@.len() && (#[trigger] s.entries@[i]).0@
                    == k;
                lemma_kv_map_index(s.entries@, i);
                if s.entries@[i].1.expires_at is Some {
                    assert(exp_contains(
                        s.expirations@,
                        s.entries@[i].1.expires_at->0,
                        s.entries@[i].0@,
                    ));
                }
            }
        },
        Some(w) => {
            let i = choose|i: int|
                0 <= i < s.expirations@.len() && (#[trigger] s.expirations@[i]).0 == w;
            assert(s.entries_map().contains_key(s.expirations@[i].1@) && s.entries_map()[s
                .expirations@[i].1@].expires_at == Some(w));
            assert forall|k: Seq<u8>|
                #![auto]
                s.entries_map().contains_key(k) && s.entries_map()[k].expires_at is Some implies w
                <= s.entries_map()[k].expires_at->0 by {
                lemma_kv_index_of(s.entries@, k);
                let j = choose|j: int| 0 <= j < s.entries@.len() && (#[trigger] s.entries@[j]).0@
                    == k;
                lemma_kv_map_index(s.entries@, j);
                assert(exp_contains(
                    s.expirations@,
                    s.entries@[j].1.expires_at->0,
                    s.entries@[j].0@,
                ));
                let l = choose|l: int|
                    0 <= l < s.expirations@.len() && (#[trigger] s.expirations@[l]).0
                        == s.entries@[j].1.expires_at->0 && s.expirations@[l].1@
                        == s.entries@[j].0@;
            }
        },
    }
}

/// GET after SET: a key set with no expiry holds its value, and no purge
/// at any later instant removes it.
pub proof fn lemma_get_after_set(
    pre: Map<Seq<u8>, EntryView>,
    k: Seq<u8>,
    v: Seq<u8>,
    now: u64,
)
    ensures
        pre.insert(k, EntryView { data: v, expires_at: None }).contains_key(k),
        pre.insert(k, EntryView { data: v, expires_at: None })[k].data == v,
        pre.insert(k, EntryView { data: v, expires_at: None }).remove_keys(
            expired_keys(pre.insert(k, EntryView { data: v, expires_at: None }), now),
        ).contains_key(k),
        pre.insert(k, EntryView { data: v, expires_at: None }).remove_keys(
            expired_keys(pre.insert(k, EntryView { data: v, expires_at: None }), now),
        )[k].data == v,
{
    let m = pre.insert(k, EntryView { data: v, expires_at: None });
    assert(!expired_keys(m, now).contains(k));
}

/// TTL eviction: once a key's expiry instant has passed, a purge removes
/// it, and a GET afterwards misses.
pub proof fn lemma_ttl_eviction(m: Map<Seq<u8>, EntryView>, k: Seq<u8>, t: u64, now: u64)
    requires
        m.contains_key(k),
        m[k].expires_at == Some(t),
        t <= now,
    ensures
        !m.remove_keys(expired_keys(m, now)).contains_key(k),
{
    assert(expired_keys(m, now).contains(k));
}

} // verus!
