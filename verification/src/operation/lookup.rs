//! Where a volume's copies are, as the directory server answers, and the cache a volume
//! server keeps of those answers.
use vstd::prelude::*;

verus! {

/// Why a lookup failed.
#[derive(Debug)]
pub enum Error {
    /// A failure, with its message.
    Other(String),
}

/// One place of a volume: the node's address and its public address.
#[derive(Debug)]
pub struct Location {
    pub url: String,
    pub public_url: String,
}

impl Clone for Location {
    fn clone(&self) -> (r: Location)
        ensures
            r == *self,
    {
        Location { url: self.url.clone(), public_url: self.public_url.clone() }
    }
}

/// The answer to a lookup: the volume, its places, and an error message (empty on
/// success).
#[derive(Debug)]
pub struct LookupResult {
    pub volume_id: String,
    pub locations: Vec<Location>,
    pub error: String,
}

/// `a` and `b` hold the same answer.
pub open spec fn lookup_eq(a: LookupResult, b: LookupResult) -> bool {
    a.volume_id == b.volume_id && a.locations@ == b.locations@ && a.error == b.error
}

impl LookupResult {
    /// A copy of this answer.
    pub fn copy(&self) -> (r: LookupResult)
        ensures
            lookup_eq(r, *self),
    {
        let mut locs: Vec<Location> = Vec::new();
        let mut i: usize = 0;
        while i < self.locations.len()
            invariant
                i <= self.locations@.len(),
                locs@ == self.locations@.take(i as int),
            decreases self.locations@.len() - i,
        {
            locs.push(self.locations[i].clone());
            assert(self.locations@.take(i + 1) =~= self.locations@.take(i as int).push(self.locations@[i as int]));
            i = i + 1;
        }
        assert(self.locations@.take(i as int) =~= self.locations@);
        LookupResult { volume_id: self.volume_id.clone(), locations: locs, error: self.error.clone() }
    }
}

/// How long an answer stays in the cache: ten minutes, in nanoseconds.
pub const LOOKUP_TIMEOUT_NANOS: u64 = 600_000_000_000;

/// The first entry of `c`, from `start` on, for volume `vid`.
pub open spec fn cache_find_from(c: Seq<(String, LookupResult, u64)>, vid: Seq<char>, start: int) -> Option<int>
    decreases c.len() - start,
{
    if start < 0 || start >= c.len() {
        None
    } else if c[start].0@ == vid {
        Some(start)
    } else {
        cache_find_from(c, vid, start + 1)
    }
}

/// The first entry of `c` for volume `vid`.
pub open spec fn cache_find(c: Seq<(String, LookupResult, u64)>, vid: Seq<char>) -> Option<int> {
    cache_find_from(c, vid, 0)
}

proof fn lemma_cache_find_from(c: Seq<(String, LookupResult, u64)>, vid: Seq<char>, start: int)
    requires
        0 <= start,
    ensures
        cache_find_from(c, vid, start) matches Some(i) ==> start <= i < c.len() && c[i].0@ == vid
            && forall|j: int| start <= j < i ==> (#[trigger] c[j]).0@ != vid,
        cache_find_from(c, vid, start) is None ==> forall|j: int| start <= j < c.len() ==> (#[trigger] c[j]).0@ != vid,
    decreases c.len() - start,
{
    if start < c.len() && c[start].0@ != vid {
        lemma_cache_find_from(c, vid, start + 1);
    }
}

/// `after` is `before` with answer `res` for volume `vid`, come at time `now`, kept in
/// place of the entry for `vid` or else as a new last entry.
pub open spec fn remembered(before: Looker, after: Looker, vid: Seq<char>, res: LookupResult, now: u64) -> bool {
    &&& after.server == before.server
    &&& after.timeout == before.timeout
    &&& match cache_find(before.cache@, vid) {
        Some(i) => after.cache@ == before.cache@.update(i, after.cache@[i]) && after.cache@[i].0@ == vid,
        None => after.cache@.len() == before.cache@.len() + 1 && after.cache@.take(
            before.cache@.len() as int,
        ) == before.cache@ && after.cache@[before.cache@.len() as int].0@ == vid,
    }
    &&& (cache_find(after.cache@, vid) matches Some(j) && after.cache@[j].0@ == vid
        && lookup_eq(after.cache@[j].1, res) && after.cache@[j].2 == now)
    &&& (before.clock_ok(now) ==> after.clock_ok(now))
}

/// An answer just kept is the one the cache gives for its volume at that time, as long as
/// answers are kept for some time at all; and the cache still gives, for every other
/// volume, what it gave before.
pub proof fn law_cached_after_remember(
    before: Looker,
    after: Looker,
    vid: Seq<char>,
    other: Seq<char>,
    res: LookupResult,
    now: u64,
)
    requires
        remembered(before, after, vid, res, now),
        before.timeout > 0,
        other != vid,
    ensures
        after.hit(vid, now) matches Some(j) && lookup_eq(after.cache@[j].1, res),
        match before.hit(other, now) {
            Some(i) => after.hit(other, now) == Some(i) && after.cache@[i] == before.cache@[i],
            None => after.hit(other, now) is None,
        },
{
    lemma_cache_find_from(before.cache@, other, 0);
    lemma_cache_find_from(after.cache@, other, 0);
    lemma_cache_find_from(before.cache@, vid, 0);
    let b = before.cache@;
    let a = after.cache@;
    assert forall|k: int| 0 <= k < b.len() && b[k].0@ != vid implies a[k] == b[k] by {
        match cache_find(b, vid) {
            Some(i) => {
                assert(k != i);
                assert(a == b.update(i, a[i]));
            },
            None => {
                assert(a.take(b.len() as int)[k] == a[k]);
            },
        }
    }
    match cache_find(b, other) {
        Some(i) => {
            assert(a[i] == b[i]);
            assert forall|j: int| 0 <= j < i implies (#[trigger] a[j]).0@ != other by {
                if b[j].0@ != vid {
                    assert(a[j] == b[j]);
                } else {
                    lemma_vid_slot(before, after, vid, res, now, j);
                }
            }
            lemma_cache_find_unique(a, other, i);
        },
        None => {
            assert forall|j: int| 0 <= j < a.len() implies (#[trigger] a[j]).0@ != other by {
                if j < b.len() && b[j].0@ != vid {
                    assert(a[j] == b[j]);
                } else {
                    lemma_vid_slot(before, after, vid, res, now, j);
                }
            }
            lemma_cache_find_none(a, other);
        },
    }
}

proof fn lemma_cache_find_unique(c: Seq<(String, LookupResult, u64)>, vid: Seq<char>, i: int)
    requires
        0 <= i < c.len(),
        c[i].0@ == vid,
        forall|j: int| 0 <= j < i ==> (#[trigger] c[j]).0@ != vid,
    ensures
        cache_find(c, vid) == Some(i),
{
    lemma_cache_find_from(c, vid, 0);
}

proof fn lemma_cache_find_none(c: Seq<(String, LookupResult, u64)>, vid: Seq<char>)
    requires
        forall|j: int| 0 <= j < c.len() ==> (#[trigger] c[j]).0@ != vid,
    ensures
        cache_find(c, vid) is None,
{
    lemma_cache_find_from(c, vid, 0);
}

/// An entry of `after` that is new or changed is the one for `vid`.
proof fn lemma_vid_slot(before: Looker, after: Looker, vid: Seq<char>, res: LookupResult, now: u64, j: int)
    requires
        remembered(before, after, vid, res, now),
        0 <= j < after.cache@.len(),
        !(j < before.cache@.len() && before.cache@[j].0@ != vid),
    ensures
        after.cache@[j].0@ == vid || (j < before.cache@.len() && after.cache@[j] == before.cache@[j]),
{
    lemma_cache_find_from(before.cache@, vid, 0);
    lemma_cache_find_from(after.cache@, vid, 0);
    let b = before.cache@;
    let a = after.cache@;
    match cache_find(b, vid) {
        Some(i) => {
            if j != i {
                assert(a == b.update(i, a[i]));
                assert(a[j] == b[j]);
            }
        },
        None => {
            if j < b.len() {
                assert(a.take(b.len() as int)[j] == a[j]);
            }
        },
    }
}

/// A cache of the directory server's answers to lookups, each kept with the time it came
/// (in nanoseconds) for ten minutes.
#[derive(Debug)]
pub struct Looker {
    pub server: String,
    pub cache: Vec<(String, LookupResult, u64)>,
    pub timeout: u64,
}

impl Looker {
    /// No entry of the cache came later than `now` (the clock did not go back).
    pub open spec fn clock_ok(&self, now: u64) -> bool {
        forall|i: int| 0 <= i < self.cache@.len() ==> (#[trigger] self.cache@[i]).2 <= now
    }

    /// The cached answer for volume `vid` at time `now`: the entry for it, if it came less
    /// than the timeout before.
    pub open spec fn hit(&self, vid: Seq<char>, now: u64) -> Option<int> {
        match cache_find(self.cache@, vid) {
            Some(i) => if now - self.cache@[i].2 < self.timeout {
                Some(i)
            } else {
                None
            },
            None => None,
        }
    }

    /// An empty cache for answers from the directory server at `server`.
    pub fn new(server: &str) -> (r: Looker)
        ensures
            r.server@ == server@,
            r.cache@.len() == 0,
            r.timeout == LOOKUP_TIMEOUT_NANOS,
    {
        Looker { server: String::from_str(server), cache: Vec::new(), timeout: LOOKUP_TIMEOUT_NANOS }
    }

    /// Whether no entry came later than `now`.
    pub fn clock_is_ok(&self, now: u64) -> (r: bool)
        ensures
            r == self.clock_ok(now),
    {
        let mut i: usize = 0;
        while i < self.cache.len()
            invariant
                i <= self.cache@.len(),
                forall|j: int| 0 <= j < i ==> (#[trigger] self.cache@[j]).2 <= now,
            decreases self.cache@.len() - i,
        {
            if self.cache[i].2 > now {
                return false;
            }
            i = i + 1;
        }
        true
    }

    /// The index of the first entry for volume `vid`.
    fn find(&self, vid: &str) -> (r: Option<usize>)
        ensures
            match r {
                Some(k) => cache_find(self.cache@, vid@) == Some(k as int) && k < self.cache@.len(),
                None => cache_find(self.cache@, vid@) is None,
            },
    {
        proof {
            lemma_cache_find_from(self.cache@, vid@, 0);
        }
        let key = String::from_str(vid);
        let mut i: usize = 0;
        while i < self.cache.len()
            invariant
                i <= self.cache@.len(),
                key@ == vid@,
                cache_find(self.cache@, vid@) == cache_find_from(self.cache@, vid@, i as int),
            decreases self.cache@.len() - i,
        {
            if self.cache[i].0 == key {
                return Some(i);
            }
            i = i + 1;
        }
        None
    }

    /// The cached answer for volume `vid` at time `now`, if it came less than the timeout
    /// before.
    pub fn cached(&self, vid: &str, now: u64) -> (r: Option<LookupResult>)
        requires
            self.clock_ok(now),
        ensures
            match self.hit(vid@, now) {
                Some(i) => r matches Some(x) && lookup_eq(x, self.cache@[i].1),
                None => r is None,
            },
    {
        match self.find(vid) {
            Some(i) => {
                assert(self.cache@[i as int].2 <= now);
                if now - self.cache[i].2 < self.timeout {
                    Some(self.cache[i].1.copy())
                } else {
                    None
                }
            },
            None => None,
        }
    }

    /// Keeps answer `res` for volume `vid`, come at time `now`, in place of the entry for
    /// `vid` or else as a new last entry.
    pub fn remember(&mut self, vid: &str, res: LookupResult, now: u64)
        ensures
            remembered(*old(self), *final(self), vid@, res, now),
    {
        proof {
            lemma_cache_find_from(self.cache@, vid@, 0);
        }
        let ghost old_c = self.cache@;
        match self.find(vid) {
            Some(i) => {
                let key = self.cache[i].0.clone();
                self.cache.set(i, (key, res, now));
                proof {
                    assert(self.cache@ =~= old_c.update(i as int, self.cache@[i as int]));
                    lemma_cache_find_from(self.cache@, vid@, 0);
                    lemma_cache_find_from(old_c, vid@, 0);
                    assert(self.cache@[i as int].0@ == vid@);
                    match cache_find(self.cache@, vid@) {
                        Some(j) => {
                            if j < i {
                                assert(self.cache@[j] == old_c[j]);
                            }
                            if j > i {
                                assert(self.cache@[i as int].0@ == vid@);
                            }
                            assert(j == i as int);
                        },
                        None => {},
                    }
                    assert(cache_find(self.cache@, vid@) == Some(i as int));
                }
            },
            None => {
                self.cache.push((String::from_str(vid), res, now));
                proof {
                    assert(self.cache@.take(old_c.len() as int) =~= old_c);
                    lemma_cache_find_from(self.cache@, vid@, 0);
                    assert(self.cache@[old_c.len() as int].0@ == vid@);
                    lemma_cache_find_from(old_c, vid@, 0);
                    match cache_find(self.cache@, vid@) {
                        Some(j) => {
                            if j < old_c.len() {
                                assert(self.cache@[j] == old_c[j]);
                            }
                            assert(j == old_c.len());
                        },
                        None => {},
                    }
                    assert(cache_find(self.cache@, vid@) == Some(old_c.len() as int));
                }
            },
        }
    }

    /// The answer for volume `vid` at time `now`: the cached one if it came less than the
    /// timeout before; else the one `fetch` gets from the directory server (given its
    /// address and the volume), which is kept when it came.
    pub fn lookup<F: Fn(&str, &str) -> Result<LookupResult, Error>>(&mut self, vid: &str, now: u64, fetch: &F) -> (r: Result<LookupResult, Error>)
        requires
            old(self).clock_ok(now),
            forall|a: &str, b: &str| call_requires(*fetch, (a, b)),
        ensures
            final(self).clock_ok(now),
            old(self).hit(vid@, now) matches Some(i) ==> (r matches Ok(x) && lookup_eq(x, old(self).cache@[i].1)
                && final(self).cache@ == old(self).cache@),
            old(self).hit(vid@, now) is None && r is Err ==> final(self).cache@ == old(self).cache@,
            old(self).hit(vid@, now) is None && old(self).timeout > 0 ==> (r matches Ok(x) ==> (final(self).hit(vid@, now) matches Some(j)
                && lookup_eq(final(self).cache@[j].1, x))),
            old(self).hit(vid@, now) is None ==> exists|a: &str, res: Result<LookupResult, Error>|
                a@ == old(self).server@ && #[trigger] call_ensures(*fetch, (a, vid), res) && match (res, r) {
                    (Ok(x), Ok(y)) => lookup_eq(x, y),
                    (Err(e), Err(f)) => e == f,
                    _ => false,
                },
    {
        match self.cached(vid, now) {
            Some(x) => {
                return Ok(x);
            },
            None => {},
        }
        let server = self.server.as_str();
        let fetched = fetch(server, vid);
        let ghost got = fetched;
        assert(call_ensures(*fetch, (server, vid), got));
        match fetched {
            Ok(res) => {
                let res2 = res.copy();
                self.remember(vid, res, now);
                Ok(res2)
            },
            Err(e) => Err(e),
        }
    }
}

} // verus!
