//! Named counters. Three variants mirror three synchronization disciplines
//! of the surrounding runtime (atomic per-key cells, one mutex, one
//! reader-writer lock); under serialized access they all maintain the same
//! abstract object, a map from counter name to count, which is what the
//! contracts here speak about.
use vstd::prelude::*;
use vstd::string::*;

use crate::decimal::dec_int;
use crate::decimal::i32_to_string;

verus! {

/// The error a counter operation can report.
#[derive(Debug, PartialEq, Eq)]
pub enum MetricsError {
    /// The named counter does not exist and this variant cannot create it.
    KeyNotFound,
}

/// The counter map denoted by a table of `(name, count)` entries.
pub open spec fn counters_map(s: Seq<(String, i32)>) -> Map<Seq<char>, int>
    decreases s.len(),
{
    if s.len() == 0 {
        Map::empty()
    } else {
        counters_map(s.drop_last()).insert(s.last().0@, s.last().1 as int)
    }
}

/// No two entries name the same counter.
pub open spec fn keys_unique(s: Seq<(String, i32)>) -> bool {
    forall|i: int, j: int| 0 <= i < j < s.len() ==> s[i].0@ != s[j].0@
}

/// An `i32` counter bumped with wrap-around, as an atomic fetch-add does.
pub open spec fn wrap_inc(v: int) -> int {
    if v == i32::MAX {
        i32::MIN as int
    } else {
        v + 1
    }
}

/// The map that assigns count 0 to every listed name.
pub open spec fn zeroed(keys: Seq<String>) -> Map<Seq<char>, int>
    decreases keys.len(),
{
    if keys.len() == 0 {
        Map::empty()
    } else {
        zeroed(keys.drop_last()).insert(keys.last()@, 0)
    }
}

proof fn lemma_counters_lookup(s: Seq<(String, i32)>, i: int)
    requires
        keys_unique(s),
        0 <= i < s.len(),
    ensures
        counters_map(s).contains_key(s[i].0@),
        counters_map(s)[s[i].0@] == s[i].1 as int,
    decreases s.len(),
{
    if i < s.len() - 1 {
        let s0 = s.drop_last();
        assert(forall|j: int| 0 <= j < s0.len() ==> s0[j] == s[j]);
        lemma_counters_lookup(s0, i);
        assert(s.last().0@ != s[i].0@);
    }
}

proof fn lemma_counters_absent(s: Seq<(String, i32)>, k: Seq<char>)
    requires
        forall|i: int| 0 <= i < s.len() ==> s[i].0@ != k,
    ensures
        !counters_map(s).contains_key(k),
    decreases s.len(),
{
    if s.len() > 0 {
        let s0 = s.drop_last();
        assert(forall|j: int| 0 <= j < s0.len() ==> s0[j] == s[j]);
        lemma_counters_absent(s0, k);
    }
}

proof fn lemma_counters_update(s: Seq<(String, i32)>, i: int, v: i32)
    requires
        keys_unique(s),
        0 <= i < s.len(),
    ensures
        keys_unique(s.update(i, (s[i].0, v))),
        counters_map(s.update(i, (s[i].0, v))) == counters_map(s).insert(s[i].0@, v as int),
    decreases s.len(),
{
    let s2 = s.update(i, (s[i].0, v));
    assert(forall|j: int| 0 <= j < s.len() && j != i ==> s2[j] == s[j]);
    if i == s.len() - 1 {
        assert(s2.drop_last() =~= s.drop_last());
        assert(counters_map(s2) =~= counters_map(s).insert(s[i].0@, v as int));
    } else {
        let s0 = s.drop_last();
        assert(forall|j: int| 0 <= j < s0.len() ==> s0[j] == s[j]);
        lemma_counters_update(s0, i, v);
        assert(s2.drop_last() =~= s0.update(i, (s[i].0, v)));
        assert(s2.last() == s.last());
        assert(s.last().0@ != s[i].0@);
        assert(counters_map(s2) =~= counters_map(s).insert(s[i].0@, v as int));
    }
}

proof fn lemma_counters_push(s: Seq<(String, i32)>, e: (String, i32))
    ensures
        counters_map(s.push(e)) == counters_map(s).insert(e.0@, e.1 as int),
{
    assert(s.push(e).drop_last() =~= s);
    assert(s.push(e).last() == e);
}

proof fn lemma_zeroed_zero(keys: Seq<String>, k: Seq<char>)
    requires
        zeroed(keys).contains_key(k),
    ensures
        zeroed(keys)[k] == 0,
    decreases keys.len(),
{
    if keys.len() > 0 && keys.last()@ != k {
        lemma_zeroed_zero(keys.drop_last(), k);
    }
}

/// Finds the entry of the named counter, if one exists.
fn find_index(data: &Vec<(String, i32)>, key: &String) -> (r: Option<usize>)
    ensures
        match r {
            Some(i) => i < data@.len() && data@[i as int].0@ == key@,
            None => forall|j: int| 0 <= j < data@.len() ==> data@[j].0@ != key@,
        },
{
    let n = data.len();
    let mut i: usize = 0;
    while i < n
        invariant
            n == data@.len(),
            0 <= i <= n,
            forall|j: int| 0 <= j < i ==> data@[j].0@ != key@,
        decreases n - i,
    {
        if data[i].0 == *key {
            return Some(i);
        }
        i += 1;
    }
    None
}

/// Counters over a key set fixed at construction, bumped with the
/// wrap-around of an atomic fetch-add; bumping an unknown key is an error.
pub struct MetricsAtomic {
    data: Vec<(String, i32)>,
}

impl MetricsAtomic {
    /// The counter map this value denotes.
    pub closed spec fn view(&self) -> Map<Seq<char>, int> {
        counters_map(self.data@)
    }

    /// Well-formedness: one entry per counter name.
    pub closed spec fn wf(&self) -> bool {
        keys_unique(self.data@)
    }

    /// Creates one zeroed counter per given name (a name listed twice still
    /// yields one counter).
    pub fn new(key: Vec<String>) -> (r: MetricsAtomic)
        ensures
            r.wf(),
            r@ == zeroed(key@),
    {
        let mut data: Vec<(String, i32)> = Vec::new();
        let n = key.len();
        let mut i: usize = 0;
        while i < n
            invariant
                n == key@.len(),
                0 <= i <= n,
                keys_unique(data@),
                counters_map(data@) == zeroed(key@.subrange(0, i as int)),
            decreases n - i,
        {
            let ghost prefix = key@.subrange(0, i as int);
            proof {
                assert(key@.subrange(0, i + 1).drop_last() =~= prefix);
                assert(key@.subrange(0, i + 1).last() == key@[i as int]);
            }
            let k = key[i].clone();
            match find_index(&data, &k) {
                Some(found) => {
                    proof {
                        lemma_counters_lookup(data@, found as int);
                        assert(counters_map(data@).contains_key(k@));
                        lemma_zeroed_zero(prefix, k@);
                        assert(counters_map(data@).insert(k@, 0) =~= counters_map(data@));
                    }
                },
                None => {
                    proof {
                        lemma_counters_push(data@, (k, 0i32));
                    }
                    data.push((k, 0));
                },
            }
            i += 1;
        }
        proof {
            assert(key@.subrange(0, n as int) =~= key@);
        }
        MetricsAtomic { data }
    }

    /// Bumps the named counter by one, wrapping at the maximum as an atomic
    /// fetch-add does; an unknown name is reported, and changes nothing.
    pub fn inc(&mut self, key: &str) -> (r: Result<(), MetricsError>)
        requires
            old(self).wf(),
        ensures
            final(self).wf(),
            old(self)@.contains_key(key@) ==> r is Ok && final(self)@ == old(self)@.insert(
                key@,
                wrap_inc(old(self)@[key@]),
            ),
            !old(self)@.contains_key(key@) ==> r == Err::<(), MetricsError>(
                MetricsError::KeyNotFound,
            ) && final(self)@ == old(self)@,
    {
        let k = key.to_owned();
        match find_index(&self.data, &k) {
            Some(i) => {
                proof {
                    lemma_counters_lookup(self.data@, i as int);
                }
                let v = self.data[i].1;
                let v2 = if v == i32::MAX {
                    i32::MIN
                } else {
                    v + 1
                };
                proof {
                    lemma_counters_update(self.data@, i as int, v2);
                }
                let name = self.data[i].0.clone();
                self.data[i] = (name, v2);
                proof {
                    assert(self.data@ =~= old(self).data@.update(
                        i as int,
                        (old(self).data@[i as int].0, v2),
                    ));
                }
                Ok(())
            },
            None => {
                proof {
                    lemma_counters_absent(self.data@, key@);
                }
                Err(MetricsError::KeyNotFound)
            },
        }
    }
}

/// Counters guarded by one mutex in the surrounding runtime; a counter is
/// created on first use.
pub struct MetricsMutex {
    data: Vec<(String, i32)>,
}

impl MetricsMutex {
    /// The counter map this value denotes.
    pub closed spec fn view(&self) -> Map<Seq<char>, int> {
        counters_map(self.data@)
    }

    /// Well-formedness: one entry per counter name.
    pub closed spec fn wf(&self) -> bool {
        keys_unique(self.data@)
    }

    /// An empty counter table.
    pub fn new() -> (r: MetricsMutex)
        ensures
            r.wf(),
            r@ == Map::<Seq<char>, int>::empty(),
    {
        MetricsMutex { data: Vec::new() }
    }

    /// Bumps the named counter by one, creating it at one if it does not
    /// exist yet.
    pub fn inc(&mut self, key: String) -> (r: Result<(), MetricsError>)
        requires
            old(self).wf(),
            old(self)@.contains_key(key@) ==> old(self)@[key@] < i32::MAX,
        ensures
            final(self).wf(),
            r is Ok,
            old(self)@.contains_key(key@) ==> final(self)@ == old(self)@.insert(
                key@,
                old(self)@[key@] + 1,
            ),
            !old(self)@.contains_key(key@) ==> final(self)@ == old(self)@.insert(key@, 1),
    {
        match find_index(&self.data, &key) {
            Some(i) => {
                proof {
                    lemma_counters_lookup(self.data@, i as int);
                }
                let v = self.data[i].1;
                proof {
                    lemma_counters_update(self.data@, i as int, (v + 1) as i32);
                }
                let name = self.data[i].0.clone();
                self.data[i] = (name, v + 1);
                proof {
                    assert(self.data@ =~= old(self).data@.update(
                        i as int,
                        (old(self).data@[i as int].0, (v + 1) as i32),
                    ));
                }
                Ok(())
            },
            None => {
                proof {
                    lemma_counters_absent(self.data@, key@);
                    lemma_counters_push(self.data@, (key, 1i32));
                }
                self.data.push((key, 1));
                Ok(())
            },
        }
    }

    /// Returns a copy of every counter with its current count: the table of
    /// entries denotes exactly this object's counter map.
    pub fn snapshot(&self) -> (r: Result<Vec<(String, i32)>, MetricsError>)
        requires
            self.wf(),
        ensures
            r is Ok,
            r matches Ok(v) ==> keys_unique(v@) && counters_map(v@) == self@,
    {
        let mut out: Vec<(String, i32)> = Vec::new();
        let n = self.data.len();
        let mut i: usize = 0;
        while i < n
            invariant
                n == self.data@.len(),
                0 <= i <= n,
                out@.len() == i,
                forall|j: int| 0 <= j < i ==> out@[j] == self.data@[j],
            decreases n - i,
        {
            let name = self.data[i].0.clone();
            let v = self.data[i].1;
            out.push((name, v));
            i += 1;
        }
        proof {
            assert(out@ =~= self.data@);
        }
        Ok(out)
    }
}

/// The rendering of the first `k` counters: one `name: count` line each.
pub open spec fn counters_render(s: Seq<(String, i32)>, k: int) -> Seq<char>
    decreases k,
{
    if k <= 0 {
        Seq::empty()
    } else {
        counters_render(s, k - 1) + s[k - 1].0@ + seq![':', ' '] + dec_int(s[k - 1].1 as int)
            + seq!['\n']
    }
}

/// Counters guarded by one reader-writer lock in the surrounding runtime; a
/// counter is created on first use.
pub struct MetricsRwLock {
    data: Vec<(String, i32)>,
}

impl MetricsRwLock {
    /// The counter map this value denotes.
    pub closed spec fn view(&self) -> Map<Seq<char>, int> {
        counters_map(self.data@)
    }

    /// The counter entries in creation order.
    pub closed spec fn entries(&self) -> Seq<(String, i32)> {
        self.data@
    }

    /// Well-formedness: one entry per counter name.
    pub closed spec fn wf(&self) -> bool {
        keys_unique(self.data@)
    }

    /// Renders every counter as one `name: count` line, in creation order.
    pub fn render(&self) -> (r: String)
        ensures
            r@ == counters_render(self.entries(), self.entries().len() as int),
    {
        proof {
            reveal_strlit(": ");
            reveal_strlit("\n");
        }
        let mut s = String::new();
        let n = self.data.len();
        let mut i: usize = 0;
        while i < n
            invariant
                n == self.data@.len(),
                0 <= i <= n,
                s@ == counters_render(self.data@, i as int),
            decreases n - i,
        {
            proof {
                reveal_strlit(": ");
                reveal_strlit("\n");
            }
            s.append(self.data[i].0.as_str());
            s.append(": ");
            let t = i32_to_string(self.data[i].1);
            s.append(t.as_str());
            s.append("\n");
            proof {
                assert(s@ =~= counters_render(self.data@, i + 1));
            }
            i += 1;
        }
        s
    }

    /// An empty counter table.
    pub fn new() -> (r: MetricsRwLock)
        ensures
            r.wf(),
            r@ == Map::<Seq<char>, int>::empty(),
    {
        MetricsRwLock { data: Vec::new() }
    }

    /// Bumps the named counter by one, creating it at one if it does not
    /// exist yet.
    pub fn inc(&mut self, key: String) -> (r: Result<(), MetricsError>)
        requires
            old(self).wf(),
            old(self)@.contains_key(key@) ==> old(self)@[key@] < i32::MAX,
        ensures
            final(self).wf(),
            r is Ok,
            old(self)@.contains_key(key@) ==> final(self)@ == old(self)@.insert(
                key@,
                old(self)@[key@] + 1,
            ),
            !old(self)@.contains_key(key@) ==> final(self)@ == old(self)@.insert(key@, 1),
    {
        match find_index(&self.data, &key) {
            Some(i) => {
                proof {
                    lemma_counters_lookup(self.data@, i as int);
                }
                let v = self.data[i].1;
                proof {
                    lemma_counters_update(self.data@, i as int, (v + 1) as i32);
                }
                let name = self.data[i].0.clone();
                self.data[i] = (name, v + 1);
                proof {
                    assert(self.data@ =~= old(self).data@.update(
                        i as int,
                        (old(self).data@[i as int].0, (v + 1) as i32),
                    ));
                }
                Ok(())
            },
            None => {
                proof {
                    lemma_counters_absent(self.data@, key@);
                    lemma_counters_push(self.data@, (key, 1i32));
                }
                self.data.push((key, 1));
                Ok(())
            },
        }
    }

    /// Returns a copy of every counter with its current count: the table of
    /// entries denotes exactly this object's counter map.
    pub fn snapshot(&self) -> (r: Result<Vec<(String, i32)>, MetricsError>)
        requires
            self.wf(),
        ensures
            r is Ok,
            r matches Ok(v) ==> v@ == self.entries() && keys_unique(v@) && counters_map(v@)
                == self@,
    {
        let mut out: Vec<(String, i32)> = Vec::new();
        let n = self.data.len();
        let mut i: usize = 0;
        while i < n
            invariant
                n == self.data@.len(),
                0 <= i <= n,
                out@.len() == i,
                forall|j: int| 0 <= j < i ==> out@[j] == self.data@[j],
            decreases n - i,
        {
            let name = self.data[i].0.clone();
            let v = self.data[i].1;
            out.push((name, v));
            i += 1;
        }
        proof {
            assert(out@ =~= self.data@);
        }
        Ok(out)
    }
}

} // verus!
