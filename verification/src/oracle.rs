//! The randomness oracle: one request record per seed, fulfilled at most
//! once.
//!
//! A request's value starts all-zero, which encodes "pending"; the oracle
//! writes a non-zero 64-byte value exactly once when it fulfills the seed.
//! `poll` hands the fulfilled value out, or nothing while the request is
//! pending. A duplicate request for a seed is refused, so exactly one seed is
//! ever in flight per request record.

use vstd::prelude::*;

use crate::errors::GameError;

verus! {

/// Every byte of `v` is zero.
pub open spec fn all_zero(v: Seq<u8>) -> bool {
    forall|i: int| 0 <= i < v.len() ==> v[i] == 0
}

/// One randomness request: the seed it was made for and the value the oracle
/// has produced, all-zero while still pending.
#[derive(Clone, Copy, Debug)]
pub struct Randomness {
    pub seed: [u8; 32],
    pub randomness: [u8; 64],
}

impl Randomness {
    /// The fulfilled value, or nothing while the request is pending.
    pub open spec fn spec_fulfilled(self) -> Option<Seq<u8>> {
        if all_zero(self.randomness@) {
            None
        } else {
            Some(self.randomness@)
        }
    }

    /// The fulfilled value, or nothing while the request is pending.
    pub fn fulfilled(&self) -> (r: Option<[u8; 64]>)
        ensures
            match r {
                Some(v) => self.spec_fulfilled() == Some(v@) && v == self.randomness,
                None => self.spec_fulfilled() is None,
            },
    {
        if is_zero_64(&self.randomness) {
            None
        } else {
            Some(self.randomness)
        }
    }
}

/// Whether every byte of `v` is zero.
fn is_zero_64(v: &[u8; 64]) -> (r: bool)
    ensures
        r == all_zero(v@),
{
    let mut i: usize = 0;
    while i < 64
        invariant
            i <= 64,
            forall|j: int| 0 <= j < i ==> v@[j] == 0,
        decreases 64 - i,
    {
        if v[i] != 0 {
            return false;
        }
        i = i + 1;
    }
    true
}

/// Whether two seeds are byte-for-byte equal.
pub(crate) fn seed_eq(a: &[u8; 32], b: &[u8; 32]) -> (r: bool)
    ensures
        r == (a@ == b@),
{
    let mut i: usize = 0;
    while i < 32
        invariant
            i <= 32,
            forall|j: int| 0 <= j < i ==> a@[j] == b@[j],
        decreases 32 - i,
    {
        if a[i] != b[i] {
            return false;
        }
        i = i + 1;
    }
    proof {
        assert(a@ =~= b@);
    }
    true
}

/// The randomness oracle.
pub struct Oracle {
    requests: Vec<Randomness>,
}

/// The request record for `seed`, reading the entries front to back.
spec fn spec_request(s: Seq<Randomness>, seed: Seq<u8>) -> Option<Randomness>
    decreases s.len(),
{
    if s.len() == 0 {
        None
    } else if s[0].seed@ == seed {
        Some(s[0])
    } else {
        spec_request(s.drop_first(), seed)
    }
}

proof fn lemma_request_found(s: Seq<Randomness>, i: int)
    requires
        0 <= i < s.len(),
        forall|j: int| 0 <= j < i ==> s[j].seed@ != s[i].seed@,
    ensures
        spec_request(s, s[i].seed@) == Some(s[i]),
    decreases i,
{
    if i > 0 {
        assert(s.drop_first()[i - 1] == s[i]);
        lemma_request_found(s.drop_first(), i - 1);
    }
}

proof fn lemma_request_absent(s: Seq<Randomness>, seed: Seq<u8>)
    requires
        forall|j: int| 0 <= j < s.len() ==> s[j].seed@ != seed,
    ensures
        spec_request(s, seed) is None,
    decreases s.len(),
{
    if s.len() > 0 {
        lemma_request_absent(s.drop_first(), seed);
    }
}

proof fn lemma_request_update(s: Seq<Randomness>, i: int, e: Randomness, k: Seq<u8>)
    requires
        0 <= i < s.len(),
        e.seed@ == s[i].seed@,
        forall|p: int, q: int| 0 <= p < q < s.len() ==> s[p].seed@ != s[q].seed@,
    ensures
        spec_request(s.update(i, e), k) == (if k == e.seed@ {
            Some(e)
        } else {
            spec_request(s, k)
        }),
    decreases i,
{
    let t = s.update(i, e);
    if i == 0 {
        assert(t.drop_first() =~= s.drop_first());
    } else {
        assert(t[0] == s[0]);
        assert(t.drop_first() =~= s.drop_first().update(i - 1, e));
        assert(s.drop_first()[i - 1] == s[i]);
        lemma_request_update(s.drop_first(), i - 1, e, k);
        if k == e.seed@ {
            assert(s[0].seed@ != s[i].seed@);
        }
    }
}

proof fn lemma_request_push(s: Seq<Randomness>, e: Randomness, k: Seq<u8>)
    ensures
        spec_request(s.push(e), k) == (if spec_request(s, k) is Some {
            spec_request(s, k)
        } else if k == e.seed@ {
            Some(e)
        } else {
            None
        }),
    decreases s.len(),
{
    let t = s.push(e);
    assert(t.len() == s.len() + 1);
    if s.len() == 0 {
        assert(t[0] == e);
        assert(t.drop_first() =~= Seq::<Randomness>::empty());
        if k == e.seed@ {
            assert(spec_request(t, k) == Some(e));
        } else {
            assert(spec_request(t, k) == spec_request(t.drop_first(), k));
            assert(spec_request(t, k) is None);
        }
        assert(spec_request(s, k) is None);
    } else {
        assert(t[0] == s[0]);
        assert(t.drop_first() =~= s.drop_first().push(e));
        lemma_request_push(s.drop_first(), e, k);
        if s[0].seed@ == k {
            assert(spec_request(t, k) == Some(s[0]));
            assert(spec_request(s, k) == Some(s[0]));
        } else {
            assert(spec_request(t, k) == spec_request(s.drop_first().push(e), k));
            assert(spec_request(s, k) == spec_request(s.drop_first(), k));
        }
    }
}

impl View for Oracle {
    type V = Map<Seq<u8>, Randomness>;

    /// The model of the oracle: seed -> request record.
    closed spec fn view(&self) -> Map<Seq<u8>, Randomness> {
        Map::new(
            |k: Seq<u8>| spec_request(self.requests@, k) is Some,
            |k: Seq<u8>| spec_request(self.requests@, k).unwrap(),
        )
    }
}

impl Oracle {
    /// Distinct request records carry distinct seeds.
    pub closed spec fn wf(&self) -> bool {
        forall|p: int, q: int|
            0 <= p < q < self.requests@.len() ==> self.requests@[p].seed@ != self.requests@[q].seed@
    }

    /// An oracle with no requests.
    pub fn new() -> (r: Oracle)
        ensures
            r.wf(),
            r@ == Map::<Seq<u8>, Randomness>::empty(),
    {
        let r = Oracle { requests: Vec::new() };
        proof {
            assert(r@ =~= Map::<Seq<u8>, Randomness>::empty());
        }
        r
    }

    /// The position of the request record for `seed`, if one exists.
    fn find_index(&self, seed: &[u8; 32]) -> (r: Option<usize>)
        ensures
            match r {
                Some(i) => {
                    &&& i < self.requests@.len()
                    &&& self.requests@[i as int].seed@ == seed@
                    &&& forall|j: int| 0 <= j < i ==> self.requests@[j].seed@ != seed@
                },
                None => forall|j: int|
                    0 <= j < self.requests@.len() ==> self.requests@[j].seed@ != seed@,
            },
    {
        let mut i: usize = 0;
        while i < self.requests.len()
            invariant
                i <= self.requests@.len(),
                forall|j: int| 0 <= j < i ==> self.requests@[j].seed@ != seed@,
            decreases self.requests@.len() - i,
        {
            if seed_eq(&self.requests[i].seed, seed) {
                return Some(i);
            }
            i = i + 1;
        }
        None
    }

    /// The request record for `seed`, if one exists.
    pub fn get(&self, seed: &[u8; 32]) -> (r: Option<Randomness>)
        ensures
            r == (if self@.contains_key(seed@) {
                Some(self@[seed@])
            } else {
                None::<Randomness>
            }),
    {
        match self.find_index(seed) {
            Some(i) => {
                proof {
                    lemma_request_found(self.requests@, i as int);
                }
                Some(self.requests[i])
            },
            None => {
                proof {
                    lemma_request_absent(self.requests@, seed@);
                }
                None
            },
        }
    }

    /// Schedules fulfillment for `seed`; a duplicate seed is refused.
    pub fn request(&mut self, seed: [u8; 32]) -> (r: Result<(), GameError>)
        requires
            old(self).wf(),
        ensures
            final(self).wf(),
            r is Ok <==> !old(self)@.contains_key(seed@),
            r is Ok ==> {
                &&& final(self)@ == old(self)@.insert(seed@, final(self)@[seed@])
                &&& final(self)@[seed@].seed == seed
                &&& all_zero(final(self)@[seed@].randomness@)
            },
            r is Err ==> r == Err::<(), GameError>(GameError::OracleFailed) && *final(self)
                == *old(self),
    {
        match self.find_index(&seed) {
            Some(i) => {
                proof {
                    lemma_request_found(self.requests@, i as int);
                }
                Err(GameError::OracleFailed)
            },
            None => {
                proof {
                    lemma_request_absent(self.requests@, seed@);
                }
                let entry = Randomness { seed, randomness: [0u8; 64] };
                let ghost s = self.requests@;
                self.requests.push(entry);
                proof {
                    assert forall|k: Seq<u8>| #[trigger] spec_request(s.push(entry), k) == (if k
                        == seed@ {
                        Some(entry)
                    } else {
                        spec_request(s, k)
                    }) by {
                        lemma_request_push(s, entry, k);
                        if k != seed@ && spec_request(s, k) is None {
                            assert(spec_request(s.push(entry), k) is None);
                        }
                    };
                    assert(self@ =~= old(self)@.insert(seed@, entry));
                }
                Ok(())
            },
        }
    }

    /// Writes the fulfilled value for `seed`: only once, only for a known
    /// seed, and never the all-zero value that encodes "pending".
    pub fn fulfill(&mut self, seed: &[u8; 32], value: [u8; 64]) -> (r: Result<(), GameError>)
        requires
            old(self).wf(),
        ensures
            final(self).wf(),
            r is Ok <==> old(self)@.contains_key(seed@) && all_zero(old(self)@[seed@].randomness@)
                && !all_zero(value@),
            r is Ok ==> {
                &&& final(self)@ == old(self)@.insert(seed@, final(self)@[seed@])
                &&& final(self)@[seed@].seed == old(self)@[seed@].seed
                &&& final(self)@[seed@].randomness == value
            },
            r is Err ==> r == Err::<(), GameError>(GameError::OracleFailed) && *final(self)
                == *old(self),
    {
        match self.find_index(seed) {
            Some(i) => {
                proof {
                    lemma_request_found(self.requests@, i as int);
                }
                let rec = self.requests[i];
                if is_zero_64(&rec.randomness) && !is_zero_64(&value) {
                    let entry = Randomness { seed: rec.seed, randomness: value };
                    let ghost s = self.requests@;
                    self.requests.set(i, entry);
                    proof {
                        assert forall|k: Seq<u8>| #[trigger] spec_request(
                            s.update(i as int, entry),
                            k,
                        ) == (if k == seed@ {
                            Some(entry)
                        } else {
                            spec_request(s, k)
                        }) by {
                            lemma_request_update(s, i as int, entry, k);
                        };
                        assert(self@ =~= old(self)@.insert(seed@, entry));
                    }
                    Ok(())
                } else {
                    Err(GameError::OracleFailed)
                }
            },
            None => {
                proof {
                    lemma_request_absent(self.requests@, seed@);
                }
                Err(GameError::OracleFailed)
            },
        }
    }

    /// The fulfilled value for `seed`, or nothing while the request is
    /// pending or unknown. Polling never changes the oracle.
    pub fn poll(&self, seed: &[u8; 32]) -> (r: Option<[u8; 64]>)
        ensures
            match r {
                Some(v) => {
                    &&& self@.contains_key(seed@)
                    &&& self@[seed@].spec_fulfilled() == Some(v@)
                    &&& v == self@[seed@].randomness
                },
                None => !self@.contains_key(seed@) || self@[seed@].spec_fulfilled() is None,
            },
    {
        match self.get(seed) {
            Some(rec) => rec.fulfilled(),
            None => None,
        }
    }
}

} // verus!
