//! The store as a value: its tables, what holds of them, and what each
//! mutation makes of them.
//!
//! Every table assigns surrogate ids in the order of insertion, starting at 1,
//! and never loses a row: the row at place `k` has id `k + 1`.

use crate::localdb::error::DBError;
use crate::localdb::model::{
    AuthorView, ImageView, ItemScalars, TagView, VideoView,
};
use crate::text::lowercase_of;
use vstd::prelude::*;

verus! {

/// A row of a link table: an item and one sub-entity attached to it.
#[derive(Debug, Clone, Copy, PartialEq, Eq, Structural)]
pub struct Link {
    pub item_id: i32,
    pub entity_id: i32,
}

/// The tables of the store.
pub struct Tables {
    pub items: Seq<ItemScalars>,
    pub tags: Seq<TagView>,
    pub authors: Seq<AuthorView>,
    pub images: Seq<ImageView>,
    pub videos: Seq<VideoView>,
    pub items_tags: Seq<Link>,
    pub items_authors: Seq<Link>,
    pub items_images: Seq<Link>,
    pub items_videos: Seq<Link>,
}

/// The first place of a sequence whose element satisfies `p`.
pub open spec fn find<A>(s: Seq<A>, p: spec_fn(A) -> bool) -> Option<int>
    decreases s.len(),
{
    if s.len() == 0 {
        None
    } else {
        match find(s.drop_last(), p) {
            Some(k) => Some(k),
            None => if p(s.last()) {
                Some(s.len() - 1)
            } else {
                None
            },
        }
    }
}

/// How many elements of a sequence satisfy `p`.
pub open spec fn count<A>(s: Seq<A>, p: spec_fn(A) -> bool) -> nat
    decreases s.len(),
{
    if s.len() == 0 {
        0
    } else {
        count(s.drop_last(), p) + if p(s.last()) {
            1nat
        } else {
            0nat
        }
    }
}

/// The tag has this slug.
pub open spec fn has_slug(slug: Seq<char>) -> spec_fn(TagView) -> bool {
    |t: TagView| t.tag == slug
}

/// The author has this url.
pub open spec fn has_author_url(url: Seq<char>) -> spec_fn(AuthorView) -> bool {
    |a: AuthorView| a.url == Some(url)
}

/// The image has this source.
pub open spec fn has_image_src(src: Seq<char>) -> spec_fn(ImageView) -> bool {
    |i: ImageView| i.src == src
}

/// The video has this source.
pub open spec fn has_video_src(src: Seq<char>) -> spec_fn(VideoView) -> bool {
    |v: VideoView| v.src == src
}

/// The item has this remote id.
pub open spec fn has_remote_id(remote: i64) -> spec_fn(ItemScalars) -> bool {
    |i: ItemScalars| i.pocket_id == Some(remote)
}

/// The item has this url.
pub open spec fn has_url(url: Seq<char>) -> spec_fn(ItemScalars) -> bool {
    |i: ItemScalars| i.url == url
}

/// The link joins this item and this sub-entity.
pub open spec fn is_link(link: Link) -> spec_fn(Link) -> bool {
    |l: Link| l == link
}

/// The rows of a link table are distinct pairs of ids of existing rows.
pub open spec fn links_wf(links: Seq<Link>, items: nat, entities: nat) -> bool {
    &&& links.no_duplicates()
    &&& forall|k: int|
        0 <= k < links.len() ==> 1 <= (#[trigger] links[k]).item_id <= items && 1
            <= links[k].entity_id <= entities
}

impl Tables {
    /// The store without any row.
    pub open spec fn empty() -> Tables {
        Tables {
            items: Seq::empty(),
            tags: Seq::empty(),
            authors: Seq::empty(),
            images: Seq::empty(),
            videos: Seq::empty(),
            items_tags: Seq::empty(),
            items_authors: Seq::empty(),
            items_images: Seq::empty(),
            items_videos: Seq::empty(),
        }
    }

    /// What holds of the tables at all times: ids follow the order of insertion,
    /// natural keys are unique, and links are distinct pairs of existing rows.
    pub open spec fn wf(self) -> bool {
        &&& self.items.len() <= i32::MAX
        &&& forall|k: int| 0 <= k < self.items.len() ==> (#[trigger] self.items[k]).id == k + 1
        &&& forall|i: int, j: int|
            0 <= i < j < self.items.len() ==> (#[trigger] self.items[i]).url
                != (#[trigger] self.items[j]).url
        &&& forall|i: int, j: int|
            0 <= i < j < self.items.len() && (#[trigger] self.items[i]).pocket_id is Some
                ==> self.items[i].pocket_id != (#[trigger] self.items[j]).pocket_id
        &&& self.tags.len() <= i32::MAX
        &&& forall|k: int| 0 <= k < self.tags.len() ==> (#[trigger] self.tags[k]).id == k + 1
        &&& forall|i: int, j: int|
            0 <= i < j < self.tags.len() ==> (#[trigger] self.tags[i]).tag
                != (#[trigger] self.tags[j]).tag
        &&& self.authors.len() <= i32::MAX
        &&& forall|k: int|
            0 <= k < self.authors.len() ==> (#[trigger] self.authors[k]).id == k + 1
        &&& forall|i: int, j: int|
            0 <= i < j < self.authors.len() && (#[trigger] self.authors[i]).url is Some
                ==> self.authors[i].url != (#[trigger] self.authors[j]).url
        &&& self.images.len() <= i32::MAX
        &&& forall|k: int| 0 <= k < self.images.len() ==> (#[trigger] self.images[k]).id == k + 1
        &&& forall|i: int, j: int|
            0 <= i < j < self.images.len() ==> (#[trigger] self.images[i]).src
                != (#[trigger] self.images[j]).src
        &&& self.videos.len() <= i32::MAX
        &&& forall|k: int| 0 <= k < self.videos.len() ==> (#[trigger] self.videos[k]).id == k + 1
        &&& forall|i: int, j: int|
            0 <= i < j < self.videos.len() ==> (#[trigger] self.videos[i]).src
                != (#[trigger] self.videos[j]).src
        &&& links_wf(self.items_tags, self.items.len(), self.tags.len())
        &&& links_wf(self.items_authors, self.items.len(), self.authors.len())
        &&& links_wf(self.items_images, self.items.len(), self.images.len())
        &&& links_wf(self.items_videos, self.items.len(), self.videos.len())
    }
}

/// The link table with one more pair, unless it holds the pair already.
pub open spec fn with_link(links: Seq<Link>, link: Link) -> Seq<Link> {
    if links.contains(link) {
        links
    } else {
        links.push(link)
    }
}

/// Both ids of the link name existing rows.
pub open spec fn link_in_range(link: Link, items: nat, entities: nat) -> bool {
    1 <= link.item_id <= items && 1 <= link.entity_id <= entities
}

/// Stores a tag under its slug, or finds the tag that has the slug already. A
/// tag that is found stays as it is.
pub open spec fn upsert_tag(db: Tables, slug: Seq<char>, name: Option<Seq<char>>) -> (
    Tables,
    Result<i32, DBError>,
) {
    match find(db.tags, has_slug(slug)) {
        Some(k) => (db, Ok((k + 1) as i32)),
        None => if db.tags.len() >= i32::MAX {
            (db, Err(DBError::Full))
        } else {
            let id = (db.tags.len() + 1) as i32;
            (Tables { tags: db.tags.push(TagView { id, tag: slug, name }), ..db }, Ok(id))
        },
    }
}

/// Stores an author, or finds the author that has the same url already. An
/// author without url is always stored anew.
pub open spec fn upsert_author(db: Tables, author: AuthorView) -> (Tables, Result<i32, DBError>) {
    let found = match author.url {
        Some(url) => find(db.authors, has_author_url(url)),
        None => None,
    };
    match found {
        Some(k) => (db, Ok((k + 1) as i32)),
        None => if db.authors.len() >= i32::MAX {
            (db, Err(DBError::Full))
        } else {
            let id = (db.authors.len() + 1) as i32;
            (Tables { authors: db.authors.push(AuthorView { id, ..author }), ..db }, Ok(id))
        },
    }
}

/// Stores an image, or finds the image that has the same source already.
pub open spec fn upsert_image(db: Tables, image: ImageView) -> (Tables, Result<i32, DBError>) {
    match find(db.images, has_image_src(image.src)) {
        Some(k) => (db, Ok((k + 1) as i32)),
        None => if db.images.len() >= i32::MAX {
            (db, Err(DBError::Full))
        } else {
            let id = (db.images.len() + 1) as i32;
            (Tables { images: db.images.push(ImageView { id, ..image }), ..db }, Ok(id))
        },
    }
}

/// Stores a video, or finds the video that has the same source already.
pub open spec fn upsert_video(db: Tables, video: VideoView) -> (Tables, Result<i32, DBError>) {
    match find(db.videos, has_video_src(video.src)) {
        Some(k) => (db, Ok((k + 1) as i32)),
        None => if db.videos.len() >= i32::MAX {
            (db, Err(DBError::Full))
        } else {
            let id = (db.videos.len() + 1) as i32;
            (Tables { videos: db.videos.push(VideoView { id, ..video }), ..db }, Ok(id))
        },
    }
}

/// Attaches a tag to an item. Attaching twice is attaching once.
pub open spec fn link_tag(db: Tables, tag: i32, item: i32) -> (Tables, Result<(), DBError>) {
    let link = Link { item_id: item, entity_id: tag };
    if link_in_range(link, db.items.len(), db.tags.len()) {
        (Tables { items_tags: with_link(db.items_tags, link), ..db }, Ok(()))
    } else {
        (db, Err(DBError::ForeignKey))
    }
}

/// Attaches an author to an item. Attaching twice is attaching once.
pub open spec fn link_author(db: Tables, author: i32, item: i32) -> (Tables, Result<(), DBError>) {
    let link = Link { item_id: item, entity_id: author };
    if link_in_range(link, db.items.len(), db.authors.len()) {
        (Tables { items_authors: with_link(db.items_authors, link), ..db }, Ok(()))
    } else {
        (db, Err(DBError::ForeignKey))
    }
}

/// Attaches an image to an item. Attaching twice is attaching once.
pub open spec fn link_image(db: Tables, image: i32, item: i32) -> (Tables, Result<(), DBError>) {
    let link = Link { item_id: item, entity_id: image };
    if link_in_range(link, db.items.len(), db.images.len()) {
        (Tables { items_images: with_link(db.items_images, link), ..db }, Ok(()))
    } else {
        (db, Err(DBError::ForeignKey))
    }
}

/// Attaches a video to an item. Attaching twice is attaching once.
pub open spec fn link_video(db: Tables, video: i32, item: i32) -> (Tables, Result<(), DBError>) {
    let link = Link { item_id: item, entity_id: video };
    if link_in_range(link, db.items.len(), db.videos.len()) {
        (Tables { items_videos: with_link(db.items_videos, link), ..db }, Ok(()))
    } else {
        (db, Err(DBError::ForeignKey))
    }
}

/// A stored item after it was submitted again: status and the four timestamps
/// are those of the submission, everything else stays as it was stored.
pub open spec fn resubmitted(stored: ItemScalars, given: ItemScalars) -> ItemScalars {
    ItemScalars {
        status: given.status,
        time_added: given.time_added,
        time_updated: given.time_updated,
        time_read: given.time_read,
        time_favorited: given.time_favorited,
        ..stored
    }
}

/// Stores the row of an item, or resolves it to the row that is there.
///
/// An item with a remote id is keyed by it: where a row has that remote id, the
/// row takes the status and timestamps of the submission and keeps the rest.
/// An item without remote id is looked up by its url, and a row that is found
/// stays as it is. Otherwise the item gets a new row, unless its url belongs to
/// another row already, which a store with unique urls must refuse.
pub open spec fn upsert_item(db: Tables, item: ItemScalars) -> (Tables, Result<i32, DBError>) {
    let by_remote_id = match item.pocket_id {
        Some(remote) => find(db.items, has_remote_id(remote)),
        None => None,
    };
    match by_remote_id {
        Some(k) => (
            Tables { items: db.items.update(k, resubmitted(db.items[k], item)), ..db },
            Ok((k + 1) as i32),
        ),
        None => match find(db.items, has_url(item.url)) {
            Some(k) => if item.pocket_id is None {
                (db, Ok((k + 1) as i32))
            } else {
                (db, Err(DBError::UniqueViolation))
            },
            None => if db.items.len() >= i32::MAX {
                (db, Err(DBError::Full))
            } else {
                let id = (db.items.len() + 1) as i32;
                (Tables { items: db.items.push(ItemScalars { id: id as i64, ..item }), ..db }, Ok(id))
            },
        },
    }
}

/// Stores one tag of an item under its lowercase slug and attaches it.
pub open spec fn attach_tag(db: Tables, item: i32, tag: TagView) -> (Tables, Result<(), DBError>) {
    let stored = upsert_tag(db, lowercase_of(tag.tag), tag.name);
    match stored.1 {
        Ok(id) => link_tag(stored.0, id, item),
        Err(e) => (stored.0, Err(e)),
    }
}

/// Stores one author of an item and attaches it.
pub open spec fn attach_author(db: Tables, item: i32, author: AuthorView) -> (
    Tables,
    Result<(), DBError>,
) {
    let stored = upsert_author(db, author);
    match stored.1 {
        Ok(id) => link_author(stored.0, id, item),
        Err(e) => (stored.0, Err(e)),
    }
}

/// Stores one image of an item and attaches it.
pub open spec fn attach_image(db: Tables, item: i32, image: ImageView) -> (
    Tables,
    Result<(), DBError>,
) {
    let stored = upsert_image(db, image);
    match stored.1 {
        Ok(id) => link_image(stored.0, id, item),
        Err(e) => (stored.0, Err(e)),
    }
}

/// Stores one video of an item and attaches it.
pub open spec fn attach_video(db: Tables, item: i32, video: VideoView) -> (
    Tables,
    Result<(), DBError>,
) {
    let stored = upsert_video(db, video);
    match stored.1 {
        Ok(id) => link_video(stored.0, id, item),
        Err(e) => (stored.0, Err(e)),
    }
}

/// [`attach_tag`] as a step of [`attach_all`].
pub open spec fn tag_step() -> spec_fn(Tables, i32, TagView) -> (Tables, Result<(), DBError>) {
    |db: Tables, item: i32, tag: TagView| attach_tag(db, item, tag)
}

/// [`attach_author`] as a step of [`attach_all`].
pub open spec fn author_step() -> spec_fn(Tables, i32, AuthorView) -> (
    Tables,
    Result<(), DBError>,
) {
    |db: Tables, item: i32, author: AuthorView| attach_author(db, item, author)
}

/// [`attach_image`] as a step of [`attach_all`].
pub open spec fn image_step() -> spec_fn(Tables, i32, ImageView) -> (Tables, Result<(), DBError>) {
    |db: Tables, item: i32, image: ImageView| attach_image(db, item, image)
}

/// [`attach_video`] as a step of [`attach_all`].
pub open spec fn video_step() -> spec_fn(Tables, i32, VideoView) -> (Tables, Result<(), DBError>) {
    |db: Tables, item: i32, video: VideoView| attach_video(db, item, video)
}

/// Attaches sub-entities to an item one after the other, and stops at the first
/// that the store refuses: what was attached before it stays attached.
pub open spec fn attach_all<A>(
    db: Tables,
    item: i32,
    entities: Seq<A>,
    one: spec_fn(Tables, i32, A) -> (Tables, Result<(), DBError>),
) -> (Tables, Result<(), DBError>)
    decreases entities.len(),
{
    if entities.len() == 0 {
        (db, Ok(()))
    } else {
        let before = attach_all(db, item, entities.drop_last(), one);
        match before.1 {
            Ok(_) => one(before.0, item, entities.last()),
            Err(_) => before,
        }
    }
}

/// Stores an item with all that is attached to it: first its row, then its
/// tags, authors, images and videos in this order, each stored or found and
/// then linked. The first refusal ends it, and what was written before stays.
pub open spec fn add_item(
    db: Tables,
    item: ItemScalars,
    tags: Seq<TagView>,
    authors: Seq<AuthorView>,
    images: Seq<ImageView>,
    videos: Seq<VideoView>,
) -> (Tables, Result<i32, DBError>) {
    let row = upsert_item(db, item);
    match row.1 {
        Err(e) => (row.0, Err(e)),
        Ok(id) => {
            let t = attach_all(row.0, id, tags, tag_step());
            match t.1 {
                Err(e) => (t.0, Err(e)),
                Ok(_) => {
                    let a = attach_all(t.0, id, authors, author_step());
                    match a.1 {
                        Err(e) => (a.0, Err(e)),
                        Ok(_) => {
                            let i = attach_all(a.0, id, images, image_step());
                            match i.1 {
                                Err(e) => (i.0, Err(e)),
                                Ok(_) => {
                                    let v = attach_all(i.0, id, videos, video_step());
                                    match v.1 {
                                        Err(e) => (v.0, Err(e)),
                                        Ok(_) => (v.0, Ok(id)),
                                    }
                                },
                            }
                        },
                    }
                },
            }
        },
    }
}

/// The tag with this stored slug.
pub open spec fn tag_of(db: Tables, slug: Seq<char>) -> Result<TagView, DBError> {
    match find(db.tags, has_slug(slug)) {
        Some(k) => Ok(db.tags[k]),
        None => Err(DBError::RowNotFound),
    }
}

/// Attaching one more sub-entity continues from what the others made.
pub proof fn lemma_attach_next<A>(
    db: Tables,
    item: i32,
    entities: Seq<A>,
    one: spec_fn(Tables, i32, A) -> (Tables, Result<(), DBError>),
    n: int,
)
    requires
        0 <= n < entities.len(),
    ensures
        attach_all(db, item, entities.take(n + 1), one) == (match attach_all(
            db,
            item,
            entities.take(n),
            one,
        ).1 {
            Ok(_) => one(attach_all(db, item, entities.take(n), one).0, item, entities[n]),
            Err(_) => attach_all(db, item, entities.take(n), one),
        }),
{
    assert(entities.take(n + 1).drop_last() =~= entities.take(n));
}

/// Once a sub-entity is refused, the rest is not attached.
pub proof fn lemma_attach_stops<A>(
    db: Tables,
    item: i32,
    entities: Seq<A>,
    one: spec_fn(Tables, i32, A) -> (Tables, Result<(), DBError>),
    n: int,
)
    requires
        0 <= n <= entities.len(),
        attach_all(db, item, entities.take(n), one).1 is Err,
    ensures
        attach_all(db, item, entities, one) == attach_all(db, item, entities.take(n), one),
    decreases entities.len() - n,
{
    if n == entities.len() {
        assert(entities.take(n) =~= entities);
    } else {
        lemma_attach_next(db, item, entities, one, n);
        lemma_attach_stops(db, item, entities, one, n + 1);
    }
}

/// What `find` finds: the first place that satisfies `p`, or none where no
/// place does.
pub proof fn lemma_find<A>(s: Seq<A>, p: spec_fn(A) -> bool)
    ensures
        match find(s, p) {
            Some(k) => 0 <= k < s.len() && p(s[k]) && forall|j: int| 0 <= j < k ==> !p(s[j]),
            None => forall|j: int| 0 <= j < s.len() ==> !p(s[j]),
        },
    decreases s.len(),
{
    if s.len() > 0 {
        lemma_find(s.drop_last(), p);
        assert forall|j: int| 0 <= j < s.len() - 1 implies s.drop_last()[j] == s[j] by {}
        match find(s.drop_last(), p) {
            Some(k) => {
                assert(s.drop_last()[k] == s[k]);
                assert forall|j: int| 0 <= j < k implies !p(s[j]) by {
                    assert(s.drop_last()[j] == s[j]);
                }
            },
            None => {
                assert forall|j: int| 0 <= j < s.len() - 1 implies !p(s[j]) by {
                    assert(s.drop_last()[j] == s[j]);
                }
            },
        }
    }
}

/// A place that satisfies `p` after none that does is what `find` finds.
pub proof fn lemma_find_is<A>(s: Seq<A>, p: spec_fn(A) -> bool, k: int)
    requires
        0 <= k < s.len(),
        p(s[k]),
        forall|j: int| 0 <= j < k ==> !p(s[j]),
    ensures
        find(s, p) == Some(k),
{
    lemma_find(s, p);
}

} // verus!
