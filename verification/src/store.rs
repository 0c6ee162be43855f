//! The snapshot store: a persistent mapping from test key to golden value.
//!
//! The mapping is held in memory as a sequence of key/value entries with
//! unique keys; insertion order carries no meaning. Persistence is split from
//! the store itself: [`Store::to_bytes`] and [`Store::from_bytes`] translate
//! between the mapping and the bytes of the snapshot file, and the harness
//! around the library reads and writes that file.

use vstd::prelude::*;
use vstd::string::StringExecFns;

use crate::error::Error;

verus! {

/// The byte encoding of a pair sequence, as bincode writes it.
pub uninterp spec fn store_encoding(ps: Seq<(Seq<char>, Seq<char>)>) -> Seq<u8>;

/// What bincode decodes the bytes to, if anything: a deterministic function
/// of the bytes alone. Bytes written for a pair sequence decode back to it;
/// bytes that decode to nothing are rejected with an error.
pub uninterp spec fn decoding_of(bytes: Seq<u8>) -> Option<Seq<(Seq<char>, Seq<char>)>>;

/// Relies on bincode::serialize: encoding a vector of string pairs is a
/// deterministic function of those pairs, and it cannot fail — the size pass
/// only sums lengths under an unbounded limit, and writing to a byte vector
/// never errs. bincode::deserialize reads such bytes back to equal pairs.
#[verifier::external_body]
fn encode_pairs(entries: &Vec<(String, String)>) -> (b: Vec<u8>)
    ensures
        b@ == store_encoding(entries.deep_view()),
        decoding_of(b@) == Some(entries.deep_view()),
{
    bincode::serialize(entries).expect("encoding string pairs to a byte vector cannot fail")
}

/// Relies on bincode::deserialize: what the bytes decode to depends on the
/// bytes alone; bytes that decode to nothing fail with an error, never a
/// panic (the slice reader bounds-checks, lengths and UTF-8 are validated).
#[verifier::external_body]
fn decode_pairs(bytes: &Vec<u8>) -> (r: Result<Vec<(String, String)>, Error>)
    ensures
        match r {
            Ok(v) => decoding_of(bytes@) == Some(v.deep_view()),
            Err(e) => (e matches Error::Serialization(_)) && decoding_of(bytes@) is None,
        },
{
    match bincode::deserialize::<Vec<(String, String)>>(bytes.as_slice()) {
        Ok(v) => Ok(v),
        Err(e) => Err(Error::Serialization(format!("{}", e))),
    }
}

/// Whether each key stands in at most one entry.
fn has_unique_keys(entries: &Vec<(String, String)>) -> (r: bool)
    ensures
        r == unique_keys(entries.deep_view()),
{
    let n = entries.len();
    let mut i: usize = 0;
    while i < n
        invariant
            n == entries@.len(),
            i <= n,
            forall|a: int, b: int|
                0 <= a < b < n && a < i ==> (#[trigger] entries.deep_view()[a]).0 != (
                #[trigger] entries.deep_view()[b]).0,
        decreases n - i,
    {
        let mut j: usize = i + 1;
        while j < n
            invariant
                n == entries@.len(),
                i < j <= n,
                forall|b: int|
                    i < b < j ==> entries.deep_view()[i as int].0 != (#[trigger] entries.deep_view()[b]).0,
            decreases n - j,
        {
            if crate::diff::str_eq(entries[i].0.as_str(), entries[j].0.as_str()) {
                assert(entries.deep_view()[i as int].0 == entries@[i as int].0@);
                assert(entries.deep_view()[j as int].0 == entries@[j as int].0@);
                assert(!unique_keys(entries.deep_view()));
                return false;
            }
            j = j + 1;
        }
        i = i + 1;
    }
    true
}

/// The mapping that a sequence of key/value pairs holds, later entries
/// winning over earlier ones.
pub open spec fn map_of_pairs(ps: Seq<(Seq<char>, Seq<char>)>) -> Map<Seq<char>, Seq<char>>
    decreases ps.len(),
{
    if ps.len() == 0 {
        Map::empty()
    } else {
        map_of_pairs(ps.drop_last()).insert(ps.last().0, ps.last().1)
    }
}

/// Each key stands in at most one pair.
pub open spec fn unique_keys(ps: Seq<(Seq<char>, Seq<char>)>) -> bool {
    forall|i: int, j: int| 0 <= i < j < ps.len() ==> (#[trigger] ps[i]).0 != (#[trigger] ps[j]).0
}

proof fn lemma_map_of_pairs_push(ps: Seq<(Seq<char>, Seq<char>)>, p: (Seq<char>, Seq<char>))
    ensures
        map_of_pairs(ps.push(p)) == map_of_pairs(ps).insert(p.0, p.1),
{
    assert(ps.push(p).drop_last() =~= ps);
    assert(ps.push(p).last() == p);
}

proof fn lemma_map_of_pairs_domain(ps: Seq<(Seq<char>, Seq<char>)>, k: Seq<char>)
    ensures
        map_of_pairs(ps).contains_key(k) <==> exists|i: int|
            0 <= i < ps.len() && (#[trigger] ps[i]).0 == k,
    decreases ps.len(),
{
    if ps.len() > 0 {
        lemma_map_of_pairs_domain(ps.drop_last(), k);
        if map_of_pairs(ps).contains_key(k) {
            if k == ps.last().0 {
                assert(ps[ps.len() - 1].0 == k);
            } else {
                let i = choose|i: int| 0 <= i < ps.drop_last().len() && (#[trigger] ps.drop_last()[i]).0 == k;
                assert(ps[i].0 == k);
            }
        }
        if exists|i: int| 0 <= i < ps.len() && (#[trigger] ps[i]).0 == k {
            let i = choose|i: int| 0 <= i < ps.len() && (#[trigger] ps[i]).0 == k;
            if i < ps.len() - 1 {
                assert(ps.drop_last()[i].0 == k);
            }
        }
    }
}

proof fn lemma_map_of_pairs_index(ps: Seq<(Seq<char>, Seq<char>)>, i: int)
    requires
        0 <= i < ps.len(),
        forall|j: int| 0 <= j < ps.len() && j != i ==> (#[trigger] ps[j]).0 != ps[i].0,
    ensures
        map_of_pairs(ps).contains_key(ps[i].0),
        map_of_pairs(ps)[ps[i].0] == ps[i].1,
    decreases ps.len(),
{
    if i == ps.len() - 1 {
    } else {
        assert(forall|j: int|
            0 <= j < ps.drop_last().len() && j != i ==> (#[trigger] ps.drop_last()[j]).0
                != ps.drop_last()[i].0);
        lemma_map_of_pairs_index(ps.drop_last(), i);
        assert(ps.last().0 != ps[i].0);
    }
}

proof fn lemma_map_of_pairs_remove(ps: Seq<(Seq<char>, Seq<char>)>, i: int)
    requires
        0 <= i < ps.len(),
        unique_keys(ps),
    ensures
        map_of_pairs(ps.remove(i)) == map_of_pairs(ps).remove(ps[i].0),
    decreases ps.len(),
{
    let k = ps[i].0;
    if i == ps.len() - 1 {
        assert(ps.remove(i) =~= ps.drop_last());
        assert(!map_of_pairs(ps.drop_last()).contains_key(k)) by {
            lemma_map_of_pairs_domain(ps.drop_last(), k);
        }
        assert(map_of_pairs(ps.drop_last()).insert(k, ps[i].1).remove(k) =~= map_of_pairs(
            ps.drop_last(),
        ));
    } else {
        assert(unique_keys(ps.drop_last()));
        lemma_map_of_pairs_remove(ps.drop_last(), i);
        assert(ps.remove(i).drop_last() =~= ps.drop_last().remove(i));
        assert(ps.remove(i).last() == ps.last());
        let m = map_of_pairs(ps.drop_last());
        assert(map_of_pairs(ps.remove(i)) == m.remove(k).insert(ps.last().0, ps.last().1));
        assert(ps.last().0 != k);
        assert(m.remove(k).insert(ps.last().0, ps.last().1) =~= m.insert(
            ps.last().0,
            ps.last().1,
        ).remove(k));
    }
}

/// The persistent mapping from test key to golden value.
#[derive(Debug)]
pub struct Store {
    entries: Vec<(String, String)>,
}

impl View for Store {
    type V = Map<Seq<char>, Seq<char>>;

    open spec fn view(&self) -> Map<Seq<char>, Seq<char>> {
        map_of_pairs(self.pairs())
    }
}

impl Store {
    /// The key/value pairs as held, in order.
    pub closed spec fn pairs(self) -> Seq<(Seq<char>, Seq<char>)> {
        self.entries.deep_view()
    }

    /// Well-formed: each key stands in at most one entry.
    pub open spec fn wf(self) -> bool {
        unique_keys(self.pairs())
    }

    /// An empty store.
    pub fn new() -> (r: Store)
        ensures
            r@ == Map::<Seq<char>, Seq<char>>::empty(),
            r.wf(),
    {
        let r = Store { entries: Vec::new() };
        proof {
            assert(r.pairs() =~= Seq::<(Seq<char>, Seq<char>)>::empty());
        }
        r
    }

    /// The entry that holds `key`, if any.
    fn find(&self, key: &str) -> (r: Option<usize>)
        ensures
            match r {
                Some(i) => i < self.pairs().len() && self.pairs()[i as int].0 == key@,
                None => forall|i: int|
                    0 <= i < self.pairs().len() ==> (#[trigger] self.pairs()[i]).0 != key@,
            },
    {
        let mut j: usize = 0;
        while j < self.entries.len()
            invariant
                j <= self.entries.len(),
                self.pairs().len() == self.entries.len(),
                forall|i: int| 0 <= i < j ==> (#[trigger] self.pairs()[i]).0 != key@,
            decreases self.entries.len() - j,
        {
            if crate::diff::str_eq(self.entries[j].0.as_str(), key) {
                return Some(j);
            }
            j = j + 1;
        }
        None
    }

    /// Whether a golden value exists for `key`.
    pub fn contains(&self, key: &str) -> (r: bool)
        ensures
            r == self@.contains_key(key@),
    {
        proof {
            lemma_map_of_pairs_domain(self.pairs(), key@);
        }
        match self.find(key) {
            Some(_) => true,
            None => false,
        }
    }

    /// The golden value recorded for `key`, if any.
    fn get(&self, key: &str) -> (r: Option<&String>)
        requires
            self.wf(),
        ensures
            match r {
                Some(v) => self@.contains_key(key@) && v@ == self@[key@],
                None => !self@.contains_key(key@),
            },
    {
        proof {
            lemma_map_of_pairs_domain(self.pairs(), key@);
        }
        match self.find(key) {
            Some(i) => {
                proof {
                    lemma_map_of_pairs_index(self.pairs(), i as int);
                }
                Some(&self.entries[i].1)
            },
            None => None,
        }
    }

    /// Upsert: record `value` under `key`, handing back the previous golden
    /// value if one existed. A pure in-memory mutation; nothing is persisted.
    pub fn insert(&mut self, key: String, value: String) -> (prev: Option<String>)
        requires
            old(self).wf(),
        ensures
            final(self).wf(),
            final(self)@ == old(self)@.insert(key@, value@),
            match prev {
                Some(p) => old(self)@.contains_key(key@) && p@ == old(self)@[key@],
                None => !old(self)@.contains_key(key@),
            },
    {
        proof {
            lemma_map_of_pairs_domain(self.pairs(), key@);
        }
        let found = self.find(&key.as_str());
        match found {
            Some(i) => {
                proof {
                    lemma_map_of_pairs_index(self.pairs(), i as int);
                    lemma_map_of_pairs_remove(self.pairs(), i as int);
                }
                let ghost ps0 = self.pairs();
                let pair = self.entries.remove(i);
                proof {
                    assert(self.pairs() =~= ps0.remove(i as int));
                }
                let ghost ps1 = self.pairs();
                self.entries.push((key, value));
                proof {
                    assert(self.pairs() =~= ps1.push((key@, value@)));
                    lemma_map_of_pairs_push(ps1, (key@, value@));
                    assert(map_of_pairs(ps0).remove(key@).insert(key@, value@)
                        =~= map_of_pairs(ps0).insert(key@, value@));
                    assert(forall|a: int, b: int|
                        0 <= a < b < ps1.len() ==> (#[trigger] ps1[a]).0 != (#[trigger] ps1[b]).0);
                    assert(forall|a: int|
                        0 <= a < ps1.len() ==> (#[trigger] ps1[a]).0 != key@);
                    assert(final(self).wf());
                }
                Some(pair.1)
            },
            None => {
                let ghost ps0 = self.pairs();
                self.entries.push((key, value));
                proof {
                    assert(self.pairs() =~= ps0.push((key@, value@)));
                    lemma_map_of_pairs_push(ps0, (key@, value@));
                    assert(final(self).wf());
                }
                None
            },
        }
    }

    /// If a golden value exists for `key`, hand it to `f` and return `f`'s
    /// result; if none exists, do nothing and return `None`.
    pub fn compare<T, F: FnOnce(String) -> T>(&self, key: &str, f: F) -> (r: Option<T>)
        requires
            self.wf(),
            forall|g: String|
                self@.contains_key(key@) && g@ == self@[key@] ==> #[trigger] call_requires(f, (g,)),
        ensures
            r is Some ==> self@.contains_key(key@),
            r is Some ==> exists|g: String|
                #![auto]
                g@ == self@[key@] && call_ensures(f, (g,), r->0),
            r is None ==> !self@.contains_key(key@),
    {
        match self.get(key) {
            Some(v) => {
                let g = v.clone();
                let ghost golden = g;
                let t = f(g);
                proof {
                    assert(golden@ == self@[key@]);
                    assert(call_ensures(f, (golden,), t));
                }
                Some(t)
            },
            None => None,
        }
    }

    /// Serialize the whole mapping to the bytes of the snapshot file. This
    /// cannot fail: what it writes decodes back to the same pairs.
    pub fn to_bytes(&self) -> (b: Vec<u8>)
        ensures
            b@ == store_encoding(self.pairs()),
            decoding_of(b@) == Some(self.pairs()),
    {
        encode_pairs(&self.entries)
    }

    /// Rebuild a store from the bytes of the snapshot file. Exactly the
    /// bytes that decode to a pair sequence without a repeated key yield a
    /// store, and it holds exactly that mapping; anything else — bytes that
    /// decode to nothing, or that hold a key twice — is rejected with a
    /// serialization error.
    pub fn from_bytes(bytes: &Vec<u8>) -> (r: Result<Store, Error>)
        ensures
            r matches Ok(s) ==> s.wf() && (decoding_of(bytes@) matches Some(ps) && s.pairs() == ps
                && s@ == map_of_pairs(ps)),
            r matches Err(e) ==> (e matches Error::Serialization(_)) && (decoding_of(bytes@) is None
                || !unique_keys(decoding_of(bytes@)->0)),
    {
        let entries = match decode_pairs(bytes) {
            Ok(v) => v,
            Err(e) => { return Err(e) },
        };
        if has_unique_keys(&entries) {
            Ok(Store { entries })
        } else {
            Err(Error::Serialization(String::from_str("snapshot data holds a test key twice")))
        }
    }

    /// Interpret the snapshot file's contents: an empty file holds the empty
    /// mapping (a store yet to be initialized); anything else must decode as
    /// [`Store::from_bytes`] asks.
    pub fn load(bytes: &Vec<u8>) -> (r: Result<Store, Error>)
        ensures
            bytes@.len() == 0 ==> (r matches Ok(s) && s@ == Map::<Seq<char>, Seq<char>>::empty()
                && s.wf()),
            bytes@.len() > 0 ==> (r matches Ok(s) ==> s.wf() && (decoding_of(bytes@) matches Some(
                ps,
            ) && s.pairs() == ps && s@ == map_of_pairs(ps))),
            bytes@.len() > 0 ==> (r matches Err(e) ==> (e matches Error::Serialization(_)) && (
            decoding_of(bytes@) is None || !unique_keys(decoding_of(bytes@)->0))),
    {
        if bytes.len() == 0 {
            Ok(Store::new())
        } else {
            Store::from_bytes(bytes)
        }
    }
}

} // verus!
