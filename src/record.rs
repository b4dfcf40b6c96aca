use vstd::prelude::*;

verus! {

/// A modification time: whole seconds since the Unix epoch (negative before
/// it) and the nanoseconds past that second.
#[derive(Clone, Copy, Debug, PartialEq, Eq, Structural)]
pub struct Timestamp {
    pub secs: i64,
    pub nanos: u32,
}

/// The change record: for each source path, the modification time it had when
/// it was last compiled and written.
pub struct Record {
    entries: Vec<(String, Timestamp)>,
}

/// The map that a list of (path, time) pairs builds when each is inserted in
/// turn, a later pair replacing an earlier one with the same path.
pub open spec fn map_of_pairs(s: Seq<(Seq<char>, Timestamp)>) -> Map<Seq<char>, Timestamp>
    decreases s.len(),
{
    if s.len() == 0 {
        Map::empty()
    } else {
        map_of_pairs(s.drop_last()).insert(s.last().0, s.last().1)
    }
}

/// The (path, time) pairs held in a decoded record file.
pub open spec fn pairs_of_triples(s: Seq<(Seq<char>, i64, u32)>) -> Seq<(Seq<char>, Timestamp)> {
    s.map_values(|t: (Seq<char>, i64, u32)| (t.0, Timestamp { secs: t.1, nanos: t.2 }))
}

/// The bytes that MessagePack gives for a list of (path, seconds, nanoseconds).
pub uninterp spec fn msgpack_of_triples(s: Seq<(Seq<char>, i64, u32)>) -> Seq<u8>;

/// What MessagePack reads back from bytes as a list of (path, seconds,
/// nanoseconds), or `None` where the bytes do not hold such a list.
pub uninterp spec fn triples_of_msgpack(b: Seq<u8>) -> Option<Seq<(Seq<char>, i64, u32)>>;

/// The record that the bytes of a record file load to: what they decode to,
/// or the empty record where they do not decode.
pub open spec fn record_in(b: Seq<u8>) -> Map<Seq<char>, Timestamp> {
    match triples_of_msgpack(b) {
        None => Map::empty(),
        Some(s) => map_of_pairs(pairs_of_triples(s)),
    }
}

/// Relies on rmp_serde::to_vec: serialises the list as arrays of a string and
/// two integers. Serialising strings and integers never fails, and
/// rmp_serde::from_slice reads those arrays back as they were written.
#[verifier::external_body]
fn encode_triples(v: &Vec<(String, i64, u32)>) -> (r: Option<Vec<u8>>)
    ensures
        r is Some,
        r->0@ == msgpack_of_triples(v.deep_view()),
        triples_of_msgpack(r->0@) == Some(v.deep_view()),
{
    rmp_serde::to_vec(v).ok()
}

/// Relies on rmp_serde::from_slice: deserialises a list, or fails with an error.
#[verifier::external_body]
fn decode_triples(b: &[u8]) -> (r: Option<Vec<(String, i64, u32)>>)
    ensures
        r is None <==> triples_of_msgpack(b@) is None,
        r is Some ==> r->0.deep_view() == triples_of_msgpack(b@)->0,
{
    rmp_serde::from_slice(b).ok()
}

pub open spec fn keys_unique(s: Seq<(Seq<char>, Timestamp)>) -> bool {
    forall|i: int, j: int| 0 <= i < s.len() && 0 <= j < s.len() && i != j ==> #[trigger] s[i].0 != #[trigger] s[j].0
}

proof fn lemma_contains(s: Seq<(Seq<char>, Timestamp)>, k: Seq<char>)
    ensures
        map_of_pairs(s).contains_key(k) <==> exists|i: int| 0 <= i < s.len() && s[i].0 == k,
    decreases s.len(),
{
    if s.len() > 0 {
        lemma_contains(s.drop_last(), k);
        if map_of_pairs(s).contains_key(k) && k != s.last().0 {
            let i = choose|i: int| 0 <= i < s.drop_last().len() && s.drop_last()[i].0 == k;
            assert(s[i].0 == k);
        }
        if exists|i: int| 0 <= i < s.len() && s[i].0 == k {
            let i = choose|i: int| 0 <= i < s.len() && s[i].0 == k;
            if i < s.len() - 1 {
                assert(s.drop_last()[i].0 == k);
            }
        }
    }
}

proof fn lemma_value(s: Seq<(Seq<char>, Timestamp)>, i: int)
    requires
        keys_unique(s),
        0 <= i < s.len(),
    ensures
        map_of_pairs(s).contains_key(s[i].0),
        map_of_pairs(s)[s[i].0] == s[i].1,
    decreases s.len(),
{
    if i < s.len() - 1 {
        assert(s[i].0 != s[s.len() - 1].0);
        assert(s.drop_last()[i] == s[i]);
        lemma_value(s.drop_last(), i);
    }
}

proof fn lemma_update(s: Seq<(Seq<char>, Timestamp)>, i: int, t: Timestamp)
    requires
        keys_unique(s),
        0 <= i < s.len(),
    ensures
        map_of_pairs(s.update(i, (s[i].0, t))) == map_of_pairs(s).insert(s[i].0, t),
    decreases s.len(),
{
    let u = s.update(i, (s[i].0, t));
    if i == s.len() - 1 {
        assert(u.drop_last() =~= s.drop_last());
        assert(map_of_pairs(u) =~= map_of_pairs(s).insert(s[i].0, t));
    } else {
        assert(u.drop_last() =~= s.drop_last().update(i, (s[i].0, t)));
        assert(s[i].0 != s[s.len() - 1].0);
        lemma_update(s.drop_last(), i, t);
        assert(map_of_pairs(u) =~= map_of_pairs(s).insert(s[i].0, t));
    }
}

impl Record {
    /// An empty record.
    pub fn new() -> (r: Record)
        ensures
            r.wf(),
            r@ == Map::<Seq<char>, Timestamp>::empty(),
    {
        let r = Record { entries: Vec::new() };
        assert(r.pairs() =~= Seq::<(Seq<char>, Timestamp)>::empty());
        r
    }

    /// The time recorded for `path`, if any.
    pub fn get(&self, path: &String) -> (r: Option<Timestamp>)
        requires
            self.wf(),
        ensures
            r == (if self@.contains_key(path@) { Some(self@[path@]) } else { None::<Timestamp> }),
    {
        let mut i: usize = 0;
        while i < self.entries.len()
            invariant
                i <= self.entries@.len(),
                self.wf(),
                forall|j: int| 0 <= j < i ==> #[trigger] self.pairs()[j].0 != path@,
            decreases self.entries@.len() - i,
        {
            if self.entries[i].0 == *path {
                proof { lemma_value(self.pairs(), i as int); }
                return Some(self.entries[i].1);
            }
            i = i + 1;
        }
        proof { lemma_contains(self.pairs(), path@); }
        None
    }

    /// Notes that `path` was compiled and written while its source had the
    /// modification time `modified`.
    pub fn log(&mut self, path: String, modified: Timestamp)
        requires
            old(self).wf(),
        ensures
            final(self).wf(),
            final(self)@ == old(self)@.insert(path@, modified),
    {
        let mut i: usize = 0;
        while i < self.entries.len()
            invariant
                i <= self.entries@.len(),
                self.wf(),
                self.entries@ == old(self).entries@,
                forall|j: int| 0 <= j < i ==> #[trigger] self.pairs()[j].0 != path@,
            decreases self.entries@.len() - i,
        {
            if self.entries[i].0 == path {
                let ghost before = self.pairs();
                self.entries.set(i, (path, modified));
                proof {
                    assert(self.pairs() =~= before.update(i as int, (before[i as int].0, modified)));
                    lemma_update(before, i as int, modified);
                }
                return;
            }
            i = i + 1;
        }
        let ghost before = self.pairs();
        proof { lemma_contains(before, path@); }
        self.entries.push((path, modified));
        proof {
            assert(self.pairs().drop_last() =~= before);
            assert forall|a: int, b: int|
                0 <= a < self.pairs().len() && 0 <= b < self.pairs().len() && a != b implies
                #[trigger] self.pairs()[a].0 != #[trigger] self.pairs()[b].0 by {
                if a < before.len() && b < before.len() {
                    assert(before[a] == self.pairs()[a] && before[b] == self.pairs()[b]);
                } else if a < before.len() {
                    assert(before[a] == self.pairs()[a]);
                } else {
                    assert(before[b] == self.pairs()[b]);
                }
            }
        }
    }

    /// Reads a record from the bytes of a record file. Where there is no file,
    /// or its bytes do not decode, the record starts empty.
    pub fn try_load(bytes: Option<Vec<u8>>) -> (r: Record)
        ensures
            r.wf(),
            r@ == match bytes {
                None => Map::<Seq<char>, Timestamp>::empty(),
                Some(b) => record_in(b@),
            },
    {
        let mut r = Record::new();
        if let Some(b) = bytes {
            if let Some(v) = decode_triples(b.as_slice()) {
                let ghost s = v.deep_view();
                let mut i: usize = 0;
                while i < v.len()
                    invariant
                        i <= v@.len(),
                        s == v.deep_view(),
                        r.wf(),
                        r@ == map_of_pairs(pairs_of_triples(s.take(i as int))),
                    decreases v@.len() - i,
                {
                    let (p, secs, nanos) = (v[i].0.clone(), v[i].1, v[i].2);
                    r.log(p, Timestamp { secs, nanos });
                    proof {
                        assert(pairs_of_triples(s.take(i + 1)).drop_last() =~= pairs_of_triples(s.take(i as int)));
                    }
                    i = i + 1;
                }
                proof { assert(s.take(v@.len() as int) =~= s); }
            }
        }
        r
    }

    /// The bytes of the record file that holds this record; loading them with
    /// `try_load` gives this record back.
    pub fn to_bytes(&self) -> (r: Vec<u8>)
        requires
            self.wf(),
        ensures
            map_of_pairs(pairs_of_triples(self.triples())) == self@,
            r@ == msgpack_of_triples(self.triples()),
            triples_of_msgpack(r@) == Some(self.triples()),
            record_in(r@) == self@,
    {
        let mut v: Vec<(String, i64, u32)> = Vec::new();
        let mut i: usize = 0;
        while i < self.entries.len()
            invariant
                i <= self.entries@.len(),
                v.deep_view() =~= self.triples().take(i as int),
            decreases self.entries@.len() - i,
        {
            let e = &self.entries[i];
            v.push((e.0.clone(), e.1.secs, e.1.nanos));
            proof {
                assert(v.deep_view() =~= self.triples().take(i as int).push(self.triples()[i as int]));
                assert(self.triples().take(i as int).push(self.triples()[i as int]) =~= self.triples().take(i + 1));
            }
            i = i + 1;
        }
        proof {
            assert(self.triples().take(i as int) =~= self.triples());
            assert(pairs_of_triples(self.triples()) =~= self.pairs());
        }
        match encode_triples(&v) {
            Some(bytes) => bytes,
            None => Vec::new(),
        }
    }

    pub closed spec fn pairs(&self) -> Seq<(Seq<char>, Timestamp)> {
        self.entries@.map_values(|e: (String, Timestamp)| (e.0@, e.1))
    }

    /// No path is held twice.
    pub closed spec fn wf(&self) -> bool {
        keys_unique(self.pairs())
    }

    /// The record as a list of (path, seconds, nanoseconds), as it is stored.
    pub closed spec fn triples(&self) -> Seq<(Seq<char>, i64, u32)> {
        self.entries@.map_values(|e: (String, Timestamp)| (e.0@, e.1.secs, e.1.nanos))
    }

    pub closed spec fn view(&self) -> Map<Seq<char>, Timestamp> {
        map_of_pairs(self.pairs())
    }
}

} // verus!
