//! The cursor store: string keys mapped to string-encoded scalars.

use crate::codec::Scalar;
use crate::localdb::error::DBError;
use vstd::prelude::*;

verus! {

/// A key with its value.
#[derive(Debug)]
pub struct KeyValue<T> {
    pub key: String,
    pub value: T,
}

impl<T> KeyValue<T> {
    pub fn new(key: String, value: T) -> (kv: Self)
        ensures
            kv.key == key,
            kv.value == value,
    {
        Self { key, value }
    }
}

impl From<(String, String)> for KeyValue<String> {
    fn from(pair: (String, String)) -> (kv: Self) {
        Self { key: pair.0, value: pair.1 }
    }
}

impl vstd::std_specs::convert::FromSpecImpl<(String, String)> for KeyValue<String> {
    open spec fn obeys_from_spec() -> bool {
        true
    }

    open spec fn from_spec(pair: (String, String)) -> Self {
        KeyValue { key: pair.0, value: pair.1 }
    }
}

impl<'a> From<(&'a str, &'a str)> for KeyValue<String> {
    fn from(pair: (&'a str, &'a str)) -> (kv: Self)
        ensures
            kv.key@ == pair.0@,
            kv.value@ == pair.1@,
    {
        text_entry(pair.0, pair.1)
    }
}

impl<'a> vstd::std_specs::convert::FromSpecImpl<(&'a str, &'a str)> for KeyValue<String> {
    open spec fn obeys_from_spec() -> bool {
        false
    }

    open spec fn from_spec(pair: (&'a str, &'a str)) -> Self {
        arbitrary()
    }
}

impl<'a> From<(&'a str, i32)> for KeyValue<String> {
    fn from(pair: (&'a str, i32)) -> (kv: Self)
        ensures
            kv.key@ == pair.0@,
            kv.value@ == <i32 as Scalar>::encoded(pair.1),
    {
        number_entry(pair.0, pair.1)
    }
}

impl<'a> vstd::std_specs::convert::FromSpecImpl<(&'a str, i32)> for KeyValue<String> {
    open spec fn obeys_from_spec() -> bool {
        false
    }

    open spec fn from_spec(pair: (&'a str, i32)) -> Self {
        arbitrary()
    }
}

/// A key with a text value, copied from borrowed text.
pub fn text_entry(key: &str, value: &str) -> (kv: KeyValue<String>)
    ensures
        kv.key@ == key@,
        kv.value@ == value@,
{
    KeyValue { key: key.to_owned(), value: value.to_owned() }
}

/// A key with the string form of an integer.
pub fn number_entry(key: &str, value: i32) -> (kv: KeyValue<String>)
    ensures
        kv.key@ == key@,
        kv.value@ == <i32 as Scalar>::encoded(value),
{
    KeyValue { key: key.to_owned(), value: value.encode() }
}

/// A stored entry.
#[derive(Debug)]
pub struct Entry {
    pub key: String,
    pub value: String,
    pub updated_at: i64,
}

/// What is stored under a key: the string form of a value and the time of the
/// last write.
pub struct Stored {
    pub value: Seq<char>,
    pub updated_at: i64,
}

/// The entries as a map. Of two entries with one key the later counts.
pub open spec fn as_map(entries: Seq<Entry>) -> Map<Seq<char>, Stored>
    decreases entries.len(),
{
    if entries.len() == 0 {
        Map::empty()
    } else {
        as_map(entries.drop_last()).insert(
            entries.last().key@,
            Stored { value: entries.last().value@, updated_at: entries.last().updated_at },
        )
    }
}

/// No two entries have the same key.
pub open spec fn distinct_keys(entries: Seq<Entry>) -> bool {
    forall|i: int, j: int|
        0 <= i < j < entries.len() ==> (#[trigger] entries[i]).key@ != (#[trigger] entries[j]).key@
}

/// What a typed read of a key gives: the value that the stored text writes. A
/// key that was never written is not found, a text that writes no value of the
/// type is a parse fault.
pub open spec fn read<T: Scalar>(store: Map<Seq<char>, Stored>, key: Seq<char>) -> Result<
    T::V,
    DBError,
> {
    if store.contains_key(key) {
        match T::decoded(store[key].value) {
            Some(v) => Ok(v),
            None => Err(DBError::ParseError),
        }
    } else {
        Err(DBError::RowNotFound)
    }
}

/// The store after a typed write: the key holds the string form of the value
/// and the time of this write, whatever it held before.
pub open spec fn written<T: Scalar>(
    store: Map<Seq<char>, Stored>,
    key: Seq<char>,
    value: T::V,
    now: i64,
) -> Map<Seq<char>, Stored> {
    store.insert(key, Stored { value: T::encoded(value), updated_at: now })
}

/// A value that was written is the value that is read, until the key is
/// written again.
pub proof fn law_read_after_write<T: Scalar>(
    store: Map<Seq<char>, Stored>,
    key: Seq<char>,
    value: T::V,
    now: i64,
)
    ensures
        read::<T>(written::<T>(store, key, value, now), key) == Ok::<T::V, DBError>(value),
{
    T::round_trip(value);
}

/// The table of keys and values.
pub struct KvDB {
    entries: Vec<Entry>,
}

impl View for KvDB {
    type V = Map<Seq<char>, Stored>;

    closed spec fn view(&self) -> Map<Seq<char>, Stored> {
        as_map(self.entries@)
    }
}

/// The map of distinct entries holds each of them, and nothing else.
proof fn lemma_as_map(entries: Seq<Entry>)
    requires
        distinct_keys(entries),
    ensures
        forall|k: int|
            0 <= k < entries.len() ==> as_map(entries).contains_key((#[trigger] entries[k]).key@)
                && as_map(entries)[entries[k].key@] == (Stored {
                value: entries[k].value@,
                updated_at: entries[k].updated_at,
            }),
        forall|key: Seq<char>|
            as_map(entries).contains_key(key) ==> exists|k: int|
                0 <= k < entries.len() && (#[trigger] entries[k]).key@ == key,
    decreases entries.len(),
{
    if entries.len() > 0 {
        let shorter = entries.drop_last();
        assert forall|k: int| 0 <= k < shorter.len() implies shorter[k] == entries[k] by {}
        lemma_as_map(shorter);
        assert forall|key: Seq<char>| as_map(entries).contains_key(key) implies exists|k: int|
            0 <= k < entries.len() && (#[trigger] entries[k]).key@ == key by {
            if key == entries.last().key@ {
                assert(entries[entries.len() - 1].key@ == key);
            } else {
                assert(as_map(shorter).contains_key(key));
                let k = choose|k: int| 0 <= k < shorter.len() && (#[trigger] shorter[k]).key@ == key;
                assert(shorter[k] == entries[k]);
                assert(entries[k].key@ == key);
            }
        }
        assert forall|k: int| 0 <= k < entries.len() implies as_map(entries).contains_key(
            (#[trigger] entries[k]).key@,
        ) && as_map(entries)[entries[k].key@] == (Stored {
            value: entries[k].value@,
            updated_at: entries[k].updated_at,
        }) by {
            if k < shorter.len() {
                assert(shorter[k].key@ != entries[entries.len() - 1].key@);
            }
        }
    }
}

/// Entries with the same keys, values and times make the same map.
proof fn lemma_as_map_same(a: Seq<Entry>, b: Seq<Entry>)
    requires
        a.len() == b.len(),
        forall|j: int|
            0 <= j < a.len() ==> (#[trigger] a[j]).key@ == b[j].key@ && a[j].value@ == b[j].value@
                && a[j].updated_at == b[j].updated_at,
    ensures
        as_map(a) == as_map(b),
    decreases a.len(),
{
    if a.len() > 0 {
        assert forall|j: int| 0 <= j < a.drop_last().len() implies (#[trigger] a.drop_last()[j]).key@
            == b.drop_last()[j].key@ && a.drop_last()[j].value@ == b.drop_last()[j].value@
            && a.drop_last()[j].updated_at == b.drop_last()[j].updated_at by {
            assert(a.drop_last()[j] == a[j]);
            assert(b.drop_last()[j] == b[j]);
        }
        lemma_as_map_same(a.drop_last(), b.drop_last());
        assert(a[a.len() - 1].key@ == b[a.len() - 1].key@);
    }
}

/// The map of distinct entries has as many keys as there are entries.
proof fn lemma_as_map_size(entries: Seq<Entry>)
    requires
        distinct_keys(entries),
    ensures
        as_map(entries).dom().finite(),
        as_map(entries).dom().len() == entries.len(),
    decreases entries.len(),
{
    if entries.len() > 0 {
        let shorter = entries.drop_last();
        assert forall|k: int| 0 <= k < shorter.len() implies shorter[k] == entries[k] by {}
        lemma_as_map_size(shorter);
        lemma_as_map(shorter);
        assert(!as_map(shorter).contains_key(entries.last().key@)) by {
            if as_map(shorter).contains_key(entries.last().key@) {
                let k = choose|k: int|
                    0 <= k < shorter.len() && (#[trigger] shorter[k]).key@ == entries.last().key@;
                assert(entries[k].key@ != entries[entries.len() - 1].key@);
            }
        }
        assert(as_map(entries).dom() =~= as_map(shorter).dom().insert(entries.last().key@));
    } else {
        assert(as_map(entries).dom() =~= Set::<Seq<char>>::empty());
    }
}

impl KvDB {
    /// What holds of the table at all times: a key has one entry.
    pub closed spec fn wf(&self) -> bool {
        distinct_keys(self.entries@)
    }

    /// A table without entries.
    pub fn new() -> (db: Self)
        ensures
            db.wf(),
            db@ == Map::<Seq<char>, Stored>::empty(),
    {
        KvDB { entries: Vec::new() }
    }

    fn place_of(&self, key: &String) -> (found: Option<usize>)
        requires
            self.wf(),
        ensures
            match found {
                Some(k) => k < self.entries.len() && self.entries[k as int].key@ == key@,
                None => !self@.contains_key(key@),
            },
    {
        let n = self.entries.len();
        let mut k: usize = 0;
        while k < n
            invariant
                k <= n,
                n == self.entries.len(),
                forall|j: int| 0 <= j < k ==> self.entries[j].key@ != key@,
            decreases n - k,
        {
            if self.entries[k].key == *key {
                return Some(k);
            }
            k = k + 1;
        }
        proof {
            lemma_as_map(self.entries@);
        }
        None
    }

    /// All entries, each key once.
    pub fn entries(&self) -> (all: Vec<Entry>)
        requires
            self.wf(),
        ensures
            as_map(all@) == self@,
            distinct_keys(all@),
            all@.len() == self@.dom().len(),
    {
        let mut all: Vec<Entry> = Vec::new();
        let n = self.entries.len();
        let mut k: usize = 0;
        while k < n
            invariant
                k <= n,
                n == self.entries.len(),
                all@.len() == k,
                forall|j: int|
                    0 <= j < k ==> (#[trigger] all[j]).key@ == self.entries[j].key@ && all[j].value@
                        == self.entries[j].value@ && all[j].updated_at
                        == self.entries[j].updated_at,
            decreases n - k,
        {
            all.push(
                Entry {
                    key: self.entries[k].key.clone(),
                    value: self.entries[k].value.clone(),
                    updated_at: self.entries[k].updated_at,
                },
            );
            k = k + 1;
        }
        proof {
            lemma_as_map_same(all@, self.entries@);
            lemma_as_map_size(self.entries@);
        }
        all
    }

    /// Reads the value of a key as a scalar of the type that is asked for.
    pub fn get_kv<T: Scalar>(&self, key: &str) -> (found: Result<KeyValue<T>, DBError>)
        requires
            self.wf(),
        ensures
            match found {
                Ok(kv) => kv.key@ == key@ && read::<T>(self@, key@) == Ok::<T::V, DBError>(
                    kv.value@,
                ),
                Err(e) => read::<T>(self@, key@) == Err::<T::V, DBError>(e),
            },
    {
        let owned = key.to_owned();
        proof {
            lemma_as_map(self.entries@);
        }
        match self.place_of(&owned) {
            Some(k) => match T::decode(self.entries[k].value.as_str()) {
                Some(value) => Ok(KeyValue { key: owned, value }),
                None => Err(DBError::ParseError),
            },
            None => Err(DBError::RowNotFound),
        }
    }

    /// Writes the string form of a value under its key, with the time of the
    /// write. The last write wins and no history is kept.
    pub fn set_kv<T: Scalar>(&mut self, kv: &KeyValue<T>, now: i64) -> (done: Result<(), DBError>)
        requires
            old(self).wf(),
        ensures
            final(self).wf(),
            done is Ok,
            final(self)@ == written::<T>(old(self)@, kv.key@, kv.value@, now),
    {
        let text = kv.value.encode();
        proof {
            lemma_as_map(self.entries@);
        }
        match self.place_of(&kv.key) {
            Some(k) => {
                let entry = &mut self.entries[k];
                entry.value = text;
                entry.updated_at = now;
                proof {
                    lemma_as_map(self.entries@);
                    lemma_as_map(old(self).entries@);
                    let after = written::<T>(old(self)@, kv.key@, kv.value@, now);
                    assert forall|key: Seq<char>| self@.contains_key(key) <==> after.contains_key(
                        key,
                    ) by {
                        if self@.contains_key(key) {
                            let j = choose|j: int|
                                0 <= j < self.entries.len() && (#[trigger] self.entries[j]).key@
                                    == key;
                            assert(old(self).entries[j].key@ == key);
                        }
                        if after.contains_key(key) && key != kv.key@ {
                            let j = choose|j: int|
                                0 <= j < old(self).entries.len() && (#[trigger] old(
                                    self,
                                ).entries[j]).key@ == key;
                            assert(self.entries[j].key@ == key);
                        }
                        if key == kv.key@ {
                            assert(self.entries[k as int].key@ == key);
                        }
                    }
                    assert forall|key: Seq<char>| self@.contains_key(key) implies self@[key]
                        == after[key] by {
                        let j = choose|j: int|
                            0 <= j < self.entries.len() && (#[trigger] self.entries[j]).key@ == key;
                        if j != k {
                            assert(old(self).entries[j].key@ == key);
                        }
                    }
                    assert(self@ =~= after);
                }
            },
            None => {
                self.entries.push(Entry { key: kv.key.clone(), value: text, updated_at: now });
                proof {
                    assert(self.entries@.drop_last() =~= old(self).entries@);
                    assert forall|i: int, j: int| 0 <= i < j < self.entries.len() implies (
                    #[trigger] self.entries[i]).key@ != (#[trigger] self.entries[j]).key@ by {
                        if j == self.entries.len() - 1 {
                            assert(old(self).entries[i].key@ == self.entries[i].key@);
                            assert(old(self)@.contains_key(old(self).entries[i].key@));
                        }
                    }
                }
            },
        }
        Ok(())
    }
}

} // verus!
