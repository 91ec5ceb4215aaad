//! The cursors of the synchronization and the access credential, kept in the
//! cursor store under fixed keys.

use crate::codec::Scalar;
use crate::localdb::error::DBError;
use crate::localdb::kv::{read, written, KeyValue, KvDB, Stored};
use vstd::prelude::*;

verus! {

pub const POCKET_ACCESS_TOKEN_KEY: &'static str = "pocket_access_token";

pub const POCKET_SINCE: &'static str = "pocket_since";

pub const POCKET_OFFSET: &'static str = "pocket_offset";

/// The typed face of the cursor store.
pub struct KvConfig(KvDB);

impl View for KvConfig {
    type V = Map<Seq<char>, Stored>;

    closed spec fn view(&self) -> Map<Seq<char>, Stored> {
        self.0@
    }
}

/// What a typed read gives to a caller that does not tell a key that was never
/// written from one whose text writes no value of the type: both are absent.
pub open spec fn lookup<T: Scalar>(store: Map<Seq<char>, Stored>, key: Seq<char>) -> Option<T::V> {
    match read::<T>(store, key) {
        Ok(v) => Some(v),
        Err(_) => None,
    }
}

impl KvConfig {
    /// What holds of the store at all times.
    pub closed spec fn wf(&self) -> bool {
        self.0.wf()
    }

    /// A store in which nothing was written.
    pub fn new() -> (config: Self)
        ensures
            config.wf(),
            config@ == Map::<Seq<char>, Stored>::empty(),
    {
        KvConfig(KvDB::new())
    }

    /// A store over a table of keys and values.
    pub fn over(db: KvDB) -> (config: Self)
        requires
            db.wf(),
        ensures
            config.wf(),
            config@ == db@,
    {
        KvConfig(db)
    }

    /// The table of keys and values.
    pub fn table(&self) -> (db: &KvDB)
        requires
            self.wf(),
        ensures
            db.wf(),
            db@ == self@,
    {
        &self.0
    }

    /// Reads a key as a scalar of the type that is asked for. A key that was
    /// never written and a text that writes no such scalar are both absent.
    pub fn get<T: Scalar>(&self, key: &str) -> (value: Option<T>)
        requires
            self.wf(),
        ensures
            match value {
                Some(v) => lookup::<T>(self@, key@) == Some(v@),
                None => lookup::<T>(self@, key@) is None,
            },
    {
        match self.0.get_kv::<T>(key) {
            Ok(kv) => Some(kv.value),
            Err(_) => None,
        }
    }

    /// Writes the string form of a value under a key. The last write wins.
    pub fn set<T: Scalar>(&mut self, key: &str, value: T, now: i64) -> (done: Result<(), DBError>)
        requires
            old(self).wf(),
        ensures
            final(self).wf(),
            done is Ok,
            final(self)@ == written::<T>(old(self)@, key@, value@, now),
    {
        let kv = KeyValue::new(key.to_owned(), value);
        self.0.set_kv(&kv, now)
    }

    /// The credential for the remote service, if one was stored.
    pub fn get_pocket_access_token(&self) -> (token: Option<String>)
        requires
            self.wf(),
        ensures
            match token {
                Some(t) => lookup::<String>(self@, POCKET_ACCESS_TOKEN_KEY@) == Some(t@),
                None => lookup::<String>(self@, POCKET_ACCESS_TOKEN_KEY@) is None,
            },
    {
        self.get::<String>(POCKET_ACCESS_TOKEN_KEY)
    }

    /// Stores the credential for the remote service.
    pub fn set_pocket_access_token(&mut self, token: &str, now: i64) -> (done: Result<(), DBError>)
        requires
            old(self).wf(),
        ensures
            final(self).wf(),
            done is Ok,
            final(self)@ == written::<String>(old(self)@, POCKET_ACCESS_TOKEN_KEY@, token@, now),
    {
        self.set::<String>(POCKET_ACCESS_TOKEN_KEY, token.to_owned(), now)
    }

    /// The high-water mark that the remote reported when the last
    /// synchronization was complete.
    pub fn get_pocket_since(&self) -> (since: Option<i32>)
        requires
            self.wf(),
        ensures
            since == lookup::<i32>(self@, POCKET_SINCE@),
    {
        self.get::<i32>(POCKET_SINCE)
    }

    /// Stores the high-water mark.
    pub fn set_pocket_since(&mut self, since: i32, now: i64) -> (done: Result<(), DBError>)
        requires
            old(self).wf(),
        ensures
            final(self).wf(),
            done is Ok,
            final(self)@ == written::<i32>(old(self)@, POCKET_SINCE@, since, now),
    {
        self.set::<i32>(POCKET_SINCE, since, now)
    }

    /// The position within the current window at which the next page starts.
    pub fn get_pocket_offset(&self) -> (offset: Option<i32>)
        requires
            self.wf(),
        ensures
            offset == lookup::<i32>(self@, POCKET_OFFSET@),
    {
        self.get::<i32>(POCKET_OFFSET)
    }

    /// Stores the position within the current window.
    pub fn set_pocket_offset(&mut self, offset: i32, now: i64) -> (done: Result<(), DBError>)
        requires
            old(self).wf(),
        ensures
            final(self).wf(),
            done is Ok,
            final(self)@ == written::<i32>(old(self)@, POCKET_OFFSET@, offset, now),
    {
        self.set::<i32>(POCKET_OFFSET, offset, now)
    }
}

} // verus!
