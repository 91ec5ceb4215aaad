//! The synchronization engine: page after page of the remote collection goes
//! into the store, and the cursor store remembers how far it got.
//!
//! The engine neither fetches nor waits. Its caller asks the remote for the
//! page that [`SyncEngine::request`] describes and hands the answer to
//! [`SyncEngine::absorb`], until that says that the window is finished. The
//! position is written down after every page, so that an invocation that was
//! cut short is taken up at the next page by the one that follows it.

use crate::codec::Scalar;
use crate::localdb::db::LocalDb;
use crate::localdb::error::DBError;
use crate::localdb::kv::{written, Stored};
use crate::localdb::kv_config::{lookup, KvConfig, POCKET_OFFSET, POCKET_SINCE};
use crate::localdb::tables::{add_item, Tables};
use crate::localdb::remote::{
    from_remote, local_authors, local_images, local_scalars, local_tags, local_videos,
};
use crate::pocket;
use crate::pocket::retrieve::{
    default_options, entries_left, GetOptions, GetOptionsView, RetrieveResponse,
};
use vstd::prelude::*;

verus! {

/// The number of items that are asked for at a time, which is also the step of
/// the position. The remote permits no larger page.
pub const PAGE_SIZE: i32 = 30;

/// Why a page was not absorbed.
#[derive(Debug, Clone, Copy, PartialEq, Eq, Structural)]
pub enum SyncError {
    /// The page does not give the total, so that nothing tells when to stop.
    NoTotal,
    /// The store refused an item of the page.
    Store(DBError),
    /// The next position is beyond the largest that can be written down.
    OffsetOverflow,
}

/// What is to be done after a page.
#[derive(Debug, Clone, Copy, PartialEq, Eq, Structural)]
pub enum Progress {
    /// Another page has to be fetched.
    More,
    /// The window is exhausted and its high-water mark is written down.
    Finished,
}

/// Where the synchronization stands: the high-water mark that the window
/// starts from, and the position of the next page within it.
#[derive(Debug, Clone, Copy, PartialEq, Eq, Structural)]
pub struct SyncEngine {
    pub since: i32,
    pub offset: i32,
}

/// A cursor as the cursor store holds it, zero where it holds none.
pub open spec fn cursor(store: Map<Seq<char>, Stored>, key: Seq<char>) -> i32 {
    match lookup::<i32>(store, key) {
        Some(v) => v,
        None => 0,
    }
}

/// The store after the items of a page went into it one after the other, up to
/// the first that it refused.
pub open spec fn store_page(db: Tables, items: Seq<pocket::Item>) -> (Tables, Result<(), DBError>)
    decreases items.len(),
{
    if items.len() == 0 {
        (db, Ok(()))
    } else {
        let before = store_page(db, items.drop_last());
        match before.1 {
            Err(_) => before,
            Ok(_) => {
                let item = items.last();
                let added = add_item(
                    before.0,
                    local_scalars(item),
                    local_tags(item.tags@),
                    local_authors(item.authors),
                    local_images(item.images),
                    local_videos(item.videos),
                );
                match added.1 {
                    Ok(_) => (added.0, Ok(())),
                    Err(e) => (added.0, Err(e)),
                }
            },
        }
    }
}

/// A page exhausts the window when it is empty, or when no entries are left
/// after it.
pub open spec fn exhausts(page: RetrieveResponse) -> bool
    recommends
        page.total is Some,
{
    page.list@.len() == 0 || !entries_left(
        page.total->Some_0 as int,
        page.entries(),
        page.position(),
    )
}

/// What absorbing a page makes of the engine, the store and the cursor store,
/// and what is to be done next.
///
/// A page without total is refused before anything is written. Otherwise its
/// items go into the store; if the store refuses one, the position stays, so
/// that the page is fetched again. Then the position moves on by a page and is
/// written down. If the page exhausts the window, the high-water mark that it
/// reports is written down too.
pub open spec fn absorbed(
    engine: SyncEngine,
    db: Tables,
    config: Map<Seq<char>, Stored>,
    page: RetrieveResponse,
    now: i64,
) -> (SyncEngine, Tables, Map<Seq<char>, Stored>, Result<Progress, SyncError>) {
    if page.total is None {
        (engine, db, config, Err(SyncError::NoTotal))
    } else {
        let stored = store_page(db, page.list@);
        match stored.1 {
            Err(e) => (engine, stored.0, config, Err(SyncError::Store(e))),
            Ok(_) => if engine.offset + PAGE_SIZE > i32::MAX {
                (engine, stored.0, config, Err(SyncError::OffsetOverflow))
            } else {
                let offset = (engine.offset + PAGE_SIZE) as i32;
                let moved = written::<i32>(config, POCKET_OFFSET@, offset, now);
                if exhausts(page) {
                    (
                        SyncEngine { since: page.since, offset },
                        stored.0,
                        written::<i32>(moved, POCKET_SINCE@, page.since, now),
                        Ok(Progress::Finished),
                    )
                } else {
                    (SyncEngine { since: engine.since, offset }, stored.0, moved, Ok(Progress::More))
                }
            },
        }
    }
}

/// The two cursors are kept under different keys.
pub proof fn lemma_cursor_keys_differ()
    ensures
        POCKET_SINCE@ != POCKET_OFFSET@,
{
    reveal_strlit("pocket_since");
    reveal_strlit("pocket_offset");
    assert(POCKET_SINCE@[7] == 's');
    assert(POCKET_OFFSET@[7] == 'o');
}

/// An invocation takes the synchronization up where the last page left it:
/// after a page is absorbed, the position that the cursor store holds is one
/// page further than the position at which the page was asked for, and it is
/// where the next invocation starts. When the page exhausts the window, the
/// high-water mark that the cursor store holds is the one that the page
/// reports.
pub proof fn law_resumes_after_page(
    engine: SyncEngine,
    db: Tables,
    config: Map<Seq<char>, Stored>,
    page: RetrieveResponse,
    now: i64,
)
    requires
        absorbed(engine, db, config, page, now).3 is Ok,
    ensures
        cursor(absorbed(engine, db, config, page, now).2, POCKET_OFFSET@) == engine.offset
            + PAGE_SIZE,
        absorbed(engine, db, config, page, now).0.offset == engine.offset + PAGE_SIZE,
        absorbed(engine, db, config, page, now).3 == Ok::<Progress, SyncError>(Progress::Finished)
            ==> cursor(absorbed(engine, db, config, page, now).2, POCKET_SINCE@) == page.since,
        absorbed(engine, db, config, page, now).3 == Ok::<Progress, SyncError>(Progress::More)
            ==> cursor(absorbed(engine, db, config, page, now).2, POCKET_SINCE@) == cursor(
            config,
            POCKET_SINCE@,
        ),
{
    lemma_cursor_keys_differ();
    let offset = (engine.offset + PAGE_SIZE) as i32;
    <i32 as Scalar>::round_trip(offset);
    <i32 as Scalar>::round_trip(page.since);
}

/// The synchronization cannot go on for ever against a remote that repeats the
/// position it was asked for: whenever another page is to be fetched, the
/// total lies beyond the engine's position, and the position moves on by a
/// page. So the distance to the total shrinks by a page with every fetch.
pub proof fn law_more_means_progress(
    engine: SyncEngine,
    db: Tables,
    config: Map<Seq<char>, Stored>,
    page: RetrieveResponse,
    now: i64,
)
    requires
        absorbed(engine, db, config, page, now).3 == Ok::<Progress, SyncError>(Progress::More),
        page.position() == engine.offset,
        page.entries() >= 0,
    ensures
        page.total is Some,
        engine.offset < page.total->Some_0,
        absorbed(engine, db, config, page, now).0.offset == engine.offset + PAGE_SIZE,
{
}

/// A page without total is refused, and nothing is written: neither the store
/// nor the cursors change.
pub proof fn law_no_total_no_write(
    engine: SyncEngine,
    db: Tables,
    config: Map<Seq<char>, Stored>,
    page: RetrieveResponse,
    now: i64,
)
    requires
        page.total is None,
    ensures
        absorbed(engine, db, config, page, now) == (
            engine,
            db,
            config,
            Err::<Progress, SyncError>(SyncError::NoTotal),
        ),
{
}

/// Storing one more item continues from what the others made.
pub proof fn lemma_store_next(db: Tables, items: Seq<pocket::Item>, n: int)
    requires
        0 <= n < items.len(),
    ensures
        store_page(db, items.take(n + 1)) == (match store_page(db, items.take(n)).1 {
            Err(_) => store_page(db, items.take(n)),
            Ok(_) => {
                let added = add_item(
                    store_page(db, items.take(n)).0,
                    local_scalars(items[n]),
                    local_tags(items[n].tags@),
                    local_authors(items[n].authors),
                    local_images(items[n].images),
                    local_videos(items[n].videos),
                );
                match added.1 {
                    Ok(_) => (added.0, Ok(())),
                    Err(e) => (added.0, Err(e)),
                }
            },
        }),
{
    assert(items.take(n + 1).drop_last() =~= items.take(n));
}

/// Once an item is refused, the rest of the page is not stored.
pub proof fn lemma_store_stops(db: Tables, items: Seq<pocket::Item>, n: int)
    requires
        0 <= n <= items.len(),
        store_page(db, items.take(n)).1 is Err,
    ensures
        store_page(db, items) == store_page(db, items.take(n)),
    decreases items.len() - n,
{
    if n == items.len() {
        assert(items.take(n) =~= items);
    } else {
        lemma_store_next(db, items, n);
        lemma_store_stops(db, items, n + 1);
    }
}

/// Puts the items of a page into the store, one after the other.
fn store_items(db: &mut LocalDb, items: &Vec<pocket::Item>) -> (done: Result<(), DBError>)
    requires
        old(db).wf(),
    ensures
        final(db).wf(),
        (final(db)@, done) == store_page(old(db)@, items@),
{
    let n = items.len();
    let mut k: usize = 0;
    while k < n
        invariant
            k <= n,
            n == items.len(),
            db.wf(),
            store_page(old(db)@, items@.take(k as int)) == (db@, Ok::<(), DBError>(())),
        decreases n - k,
    {
        proof {
            lemma_store_next(old(db)@, items@, k as int);
        }
        let item = from_remote(&items[k]);
        match db.add(&item) {
            Ok(_) => {},
            Err(e) => {
                proof {
                    lemma_store_stops(old(db)@, items@, k + 1);
                }
                return Err(e);
            },
        }
        k = k + 1;
    }
    proof {
        assert(items@.take(n as int) =~= items@);
    }
    Ok(())
}

impl SyncEngine {
    /// Takes the synchronization up where the cursor store says that it stands: at
    /// the high-water mark and the position that were written down last, each
    /// zero where none was.
    pub fn resume(config: &KvConfig) -> (engine: Self)
        requires
            config.wf(),
        ensures
            engine.since == cursor(config@, POCKET_SINCE@),
            engine.offset == cursor(config@, POCKET_OFFSET@),
    {
        let since = match config.get_pocket_since() {
            Some(v) => v,
            None => 0,
        };
        let offset = match config.get_pocket_offset() {
            Some(v) => v,
            None => 0,
        };
        SyncEngine { since, offset }
    }

    /// The request for the next page: a page of [`PAGE_SIZE`] items from the
    /// engine's position within the window of its high-water mark, with the
    /// total.
    pub fn request(&self) -> (options: GetOptions)
        ensures
            options@ == (GetOptionsView {
                since: Some(self.since),
                offset: Some(self.offset),
                count: PAGE_SIZE,
                ..default_options()
            }),
    {
        let mut options = GetOptions::for_pagination();
        options.since = Some(self.since);
        options.offset = Some(self.offset);
        options.count = PAGE_SIZE;
        options
    }

    /// Takes a page in: stores its items, moves the position on and writes it
    /// down, and tells whether the window is finished.
    pub fn absorb(
        &mut self,
        db: &mut LocalDb,
        config: &mut KvConfig,
        page: &RetrieveResponse,
        now: i64,
    ) -> (step: Result<Progress, SyncError>)
        requires
            old(db).wf(),
            old(config).wf(),
        ensures
            final(db).wf(),
            final(config).wf(),
            (*final(self), final(db)@, final(config)@, step) == absorbed(
                *old(self),
                old(db)@,
                old(config)@,
                *page,
                now,
            ),
    {
        let more = match page.has_more() {
            Ok(more) => more,
            Err(_) => {
                return Err(SyncError::NoTotal);
            },
        };
        match store_items(db, &page.list) {
            Ok(_) => {},
            Err(e) => {
                return Err(SyncError::Store(e));
            },
        }
        if self.offset > i32::MAX - PAGE_SIZE {
            return Err(SyncError::OffsetOverflow);
        }
        self.offset = self.offset + PAGE_SIZE;
        let _ = config.set_pocket_offset(self.offset, now);
        if page.list.len() == 0 || !more {
            self.since = page.since;
            let _ = config.set_pocket_since(page.since, now);
            Ok(Progress::Finished)
        } else {
            Ok(Progress::More)
        }
    }
}

} // verus!
