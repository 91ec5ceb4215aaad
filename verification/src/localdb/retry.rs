//! Laws of retrying: what was stored stays stored, and storing it again
//! changes nothing. They are what makes delivering a page more than once safe.

use crate::localdb::error::DBError;
use crate::localdb::model::{AuthorView, ImageView, ItemScalars, TagView, VideoView};
use crate::localdb::tables::{
    add_item, attach_all, attach_author, attach_image, attach_tag, attach_video, author_step,
    find, has_author_url, has_image_src, has_remote_id, has_slug, has_url, has_video_src,
    image_step, lemma_find, link_author, link_image, link_tag, link_video, resubmitted,
    tag_step, upsert_author, upsert_image, upsert_item, upsert_tag, upsert_video, video_step,
    Link, Tables,
};
use crate::text::lowercase_of;
use vstd::prelude::*;

verus! {

/// The second sequence starts with the first.
pub open spec fn is_prefix<A>(a: Seq<A>, b: Seq<A>) -> bool {
    a.len() <= b.len() && forall|k: int| 0 <= k < a.len() ==> a[k] == b[k]
}

/// Every link of the first table is in the second.
pub open spec fn within(a: Seq<Link>, b: Seq<Link>) -> bool {
    forall|l: Link| a.contains(l) ==> b.contains(l)
}

/// The second store holds what the first holds, and maybe more sub-entities
/// and links: the items are the same, each table of sub-entities goes on from
/// where it was, and no link is lost.
pub open spec fn grows(a: Tables, b: Tables) -> bool {
    &&& a.items == b.items
    &&& is_prefix(a.tags, b.tags)
    &&& is_prefix(a.authors, b.authors)
    &&& is_prefix(a.images, b.images)
    &&& is_prefix(a.videos, b.videos)
    &&& within(a.items_tags, b.items_tags)
    &&& within(a.items_authors, b.items_authors)
    &&& within(a.items_images, b.items_images)
    &&& within(a.items_videos, b.items_videos)
}

/// What is found in a table is found at the same place when the table has
/// grown.
pub proof fn lemma_find_prefix<A>(a: Seq<A>, b: Seq<A>, p: spec_fn(A) -> bool)
    requires
        is_prefix(a, b),
        find(a, p) is Some,
    ensures
        find(b, p) == find(a, p),
{
    lemma_find(a, p);
    lemma_find(b, p);
    let k = find(a, p)->Some_0;
    assert(p(b[k]));
    if find(b, p) is Some {
        let j = find(b, p)->Some_0;
        if j < k {
            assert(a[j] == b[j]);
        }
    }
}

/// A link table with one more link holds the links that it held.
pub proof fn lemma_with_link_within(links: Seq<Link>, link: Link)
    ensures
        within(links, crate::localdb::tables::with_link(links, link)),
        crate::localdb::tables::with_link(links, link).contains(link),
{
    let after = crate::localdb::tables::with_link(links, link);
    assert forall|l: Link| links.contains(l) implies after.contains(l) by {
        let j = choose|j: int| 0 <= j < links.len() && links[j] == l;
        assert(after[j] == l);
    }
    if !links.contains(link) {
        assert(after[links.len() as int] == link);
    }
}

/// A link table with one more link keeps what holds of link tables.
pub proof fn lemma_with_link_wf(links: Seq<Link>, link: Link, items: nat, entities: nat)
    requires
        crate::localdb::tables::links_wf(links, items, entities),
        crate::localdb::tables::link_in_range(link, items, entities),
    ensures
        crate::localdb::tables::links_wf(
            crate::localdb::tables::with_link(links, link),
            items,
            entities,
        ),
{
    let after = crate::localdb::tables::with_link(links, link);
    if !links.contains(link) {
        assert forall|i: int, j: int|
            0 <= i < after.len() && 0 <= j < after.len() && i != j implies after[i]
            != after[j] by {
            if i < links.len() && j < links.len() {
            } else if i < links.len() {
                assert(links.contains(links[i]));
            } else {
                assert(links.contains(links[j]));
            }
        }
    }
}

/// Growing is transitive.
pub proof fn lemma_grows_trans(a: Tables, b: Tables, c: Tables)
    requires
        grows(a, b),
        grows(b, c),
    ensures
        grows(a, c),
{
}

/// The row step of a submission keeps what holds of the store, and the id
/// that it gives is the id of a row.
pub proof fn lemma_upsert_item_wf(db: Tables, item: ItemScalars)
    requires
        db.wf(),
    ensures
        upsert_item(db, item).0.wf(),
        upsert_item(db, item).1 is Ok ==> 1 <= upsert_item(db, item).1->Ok_0 <= upsert_item(
            db,
            item,
        ).0.items.len(),
{
    lemma_find(db.items, has_url(item.url));
    if item.pocket_id is Some {
        lemma_find(db.items, has_remote_id(item.pocket_id->Some_0));
    }
}

/// Submitting an item again, to a store whose item table is as the first
/// submission left it, changes nothing and gives the same id.
pub proof fn lemma_upsert_item_again(db: Tables, item: ItemScalars, later: Tables)
    requires
        db.wf(),
        upsert_item(db, item).1 is Ok,
        later.items == upsert_item(db, item).0.items,
    ensures
        upsert_item(later, item) == (later, upsert_item(db, item).1),
{
    let first = upsert_item(db, item);
    let k = first.1->Ok_0 - 1;
    lemma_upsert_item_wf(db, item);
    lemma_find(db.items, has_url(item.url));
    lemma_find(later.items, has_url(item.url));
    if item.pocket_id is Some {
        let remote = item.pocket_id->Some_0;
        lemma_find(db.items, has_remote_id(remote));
        lemma_find(later.items, has_remote_id(remote));
        assert(has_remote_id(remote)(later.items[k]));
        if find(later.items, has_remote_id(remote))->Some_0 < k {
            let j = find(later.items, has_remote_id(remote))->Some_0;
            assert(first.0.items[j].pocket_id == first.0.items[k].pocket_id);
        }
        assert(find(later.items, has_remote_id(remote)) == Some(k));
        assert(later.items.update(k, resubmitted(later.items[k], item)) =~= later.items);
    } else {
        assert(has_url(item.url)(later.items[k]));
        if find(later.items, has_url(item.url))->Some_0 < k {
            let j = find(later.items, has_url(item.url))->Some_0;
            assert(first.0.items[j].url == first.0.items[k].url);
        }
    }
}

/// The tag is stored and attached to the item.
pub open spec fn settled_tag(db: Tables, item: i32, x: TagView) -> bool {
    &&& true
    &&& 1 <= item <= db.items.len()
    &&& match find(db.tags, has_slug(lowercase_of(x.tag))) {
        Some(k) => db.items_tags.contains(Link { item_id: item, entity_id: (k + 1) as i32 }),
        None => false,
    }
}

/// Attaching a tag keeps what holds of the store and loses nothing, and
/// after it the tag is settled.
pub proof fn lemma_attach_tag(db: Tables, item: i32, x: TagView)
    requires
        db.wf(),
        1 <= item <= db.items.len(),
    ensures
        attach_tag(db, item, x).0.wf(),
        grows(db, attach_tag(db, item, x).0),
        true && attach_tag(db, item, x).1 is Ok ==> settled_tag(
            attach_tag(db, item, x).0,
            item,
            x,
        ),
{
    let stored = upsert_tag(db, lowercase_of(x.tag), x.name);
    if true {
        lemma_find(db.tags, has_slug(lowercase_of(x.tag)));
        lemma_find(stored.0.tags, has_slug(lowercase_of(x.tag)));
    }
    assert(stored.0.wf());
    assert(is_prefix(db.tags, stored.0.tags));
    if stored.1 is Ok {
        let id = stored.1->Ok_0;
        let link = Link { item_id: item, entity_id: id };
        lemma_with_link_within(stored.0.items_tags, link);
        lemma_with_link_wf(stored.0.items_tags, link, stored.0.items.len(), stored.0.tags.len());
        if true {
            let k = id - 1;
            assert(has_slug(lowercase_of(x.tag))(stored.0.tags[k]));
            if find(stored.0.tags, has_slug(lowercase_of(x.tag)))->Some_0 < k {
                let j = find(stored.0.tags, has_slug(lowercase_of(x.tag)))->Some_0;
                assert(db.tags[j] == stored.0.tags[j]);
            }
        }
    }
}

/// A tag that is settled stays settled when the store grows.
pub proof fn lemma_settled_tag_stays(a: Tables, b: Tables, item: i32, x: TagView)
    requires
        grows(a, b),
        settled_tag(a, item, x),
    ensures
        settled_tag(b, item, x),
{
    lemma_find_prefix(a.tags, b.tags, has_slug(lowercase_of(x.tag)));
    let k = find(a.tags, has_slug(lowercase_of(x.tag)))->Some_0;
    assert(a.items_tags.contains(Link { item_id: item, entity_id: (k + 1) as i32 }));
}

/// Attaching a tag that is settled changes nothing.
pub proof fn lemma_attach_tag_again(db: Tables, item: i32, x: TagView)
    requires
        db.wf(),
        settled_tag(db, item, x),
    ensures
        attach_tag(db, item, x) == (db, Ok::<(), DBError>(())),
{
    lemma_find(db.tags, has_slug(lowercase_of(x.tag)));
}

/// Attaching tags keeps what holds of the store and loses nothing, and
/// after it each of them is settled.
pub proof fn lemma_attach_tags(db: Tables, item: i32, xs: Seq<TagView>)
    requires
        db.wf(),
        1 <= item <= db.items.len(),
    ensures
        attach_all(db, item, xs, tag_step()).0.wf(),
        grows(db, attach_all(db, item, xs, tag_step()).0),
        attach_all(db, item, xs, tag_step()).1 is Ok ==> forall|j: int|
            0 <= j < xs.len() && ({
                let x = #[trigger] xs[j];
                true
            }) ==> settled_tag(attach_all(db, item, xs, tag_step()).0, item, xs[j]),
    decreases xs.len(),
{
    if xs.len() > 0 {
        let before = attach_all(db, item, xs.drop_last(), tag_step());
        lemma_attach_tags(db, item, xs.drop_last());
        if before.1 is Ok {
            let after = attach_tag(before.0, item, xs.last());
            assert(tag_step()(before.0, item, xs.last()) == after);
            lemma_attach_tag(before.0, item, xs.last());
            lemma_grows_trans(db, before.0, after.0);
            if after.1 is Ok {
                assert forall|j: int|
                    0 <= j < xs.len() && ({
                        let x = #[trigger] xs[j];
                        true
                    }) implies settled_tag(after.0, item, xs[j]) by {
                    if j < xs.len() - 1 {
                        assert(xs.drop_last()[j] == xs[j]);
                        lemma_settled_tag_stays(before.0, after.0, item, xs[j]);
                    }
                }
            }
        }
    }
}

/// Attaching tags that are all settled changes nothing.
pub proof fn lemma_attach_tags_again(db: Tables, item: i32, xs: Seq<TagView>)
    requires
        db.wf(),
        forall|j: int| 0 <= j < xs.len() ==> settled_tag(db, item, #[trigger] xs[j]),
    ensures
        attach_all(db, item, xs, tag_step()) == (db, Ok::<(), DBError>(())),
    decreases xs.len(),
{
    if xs.len() > 0 {
        assert forall|j: int| 0 <= j < xs.drop_last().len() implies settled_tag(
            db,
            item,
            #[trigger] xs.drop_last()[j],
        ) by {
            assert(xs.drop_last()[j] == xs[j]);
        }
        lemma_attach_tags_again(db, item, xs.drop_last());
        assert(tag_step()(db, item, xs.last()) == attach_tag(db, item, xs.last()));
        lemma_attach_tag_again(db, item, xs.last());
    }
}

/// The author is stored and attached to the item. An author without url has no key, and is never settled.
pub open spec fn settled_author(db: Tables, item: i32, x: AuthorView) -> bool {
    &&& x.url is Some
    &&& 1 <= item <= db.items.len()
    &&& match find(db.authors, has_author_url(x.url->Some_0)) {
        Some(k) => db.items_authors.contains(Link { item_id: item, entity_id: (k + 1) as i32 }),
        None => false,
    }
}

/// Attaching an author keeps what holds of the store and loses nothing, and
/// after it the author is settled.
pub proof fn lemma_attach_author(db: Tables, item: i32, x: AuthorView)
    requires
        db.wf(),
        1 <= item <= db.items.len(),
    ensures
        attach_author(db, item, x).0.wf(),
        grows(db, attach_author(db, item, x).0),
        x.url is Some && attach_author(db, item, x).1 is Ok ==> settled_author(
            attach_author(db, item, x).0,
            item,
            x,
        ),
{
    let stored = upsert_author(db, x);
    if x.url is Some {
        lemma_find(db.authors, has_author_url(x.url->Some_0));
        lemma_find(stored.0.authors, has_author_url(x.url->Some_0));
    }
    assert(stored.0.wf());
    assert(is_prefix(db.authors, stored.0.authors));
    if stored.1 is Ok {
        let id = stored.1->Ok_0;
        let link = Link { item_id: item, entity_id: id };
        lemma_with_link_within(stored.0.items_authors, link);
        lemma_with_link_wf(stored.0.items_authors, link, stored.0.items.len(), stored.0.authors.len());
        if x.url is Some {
            let k = id - 1;
            assert(has_author_url(x.url->Some_0)(stored.0.authors[k]));
            if find(stored.0.authors, has_author_url(x.url->Some_0))->Some_0 < k {
                let j = find(stored.0.authors, has_author_url(x.url->Some_0))->Some_0;
                assert(db.authors[j] == stored.0.authors[j]);
            }
        }
    }
}

/// An author that is settled stays settled when the store grows.
pub proof fn lemma_settled_author_stays(a: Tables, b: Tables, item: i32, x: AuthorView)
    requires
        grows(a, b),
        settled_author(a, item, x),
    ensures
        settled_author(b, item, x),
{
    lemma_find_prefix(a.authors, b.authors, has_author_url(x.url->Some_0));
    let k = find(a.authors, has_author_url(x.url->Some_0))->Some_0;
    assert(a.items_authors.contains(Link { item_id: item, entity_id: (k + 1) as i32 }));
}

/// Attaching an author that is settled changes nothing.
pub proof fn lemma_attach_author_again(db: Tables, item: i32, x: AuthorView)
    requires
        db.wf(),
        settled_author(db, item, x),
    ensures
        attach_author(db, item, x) == (db, Ok::<(), DBError>(())),
{
    lemma_find(db.authors, has_author_url(x.url->Some_0));
}

/// Attaching authors keeps what holds of the store and loses nothing, and
/// after it each of them is settled.
pub proof fn lemma_attach_authors(db: Tables, item: i32, xs: Seq<AuthorView>)
    requires
        db.wf(),
        1 <= item <= db.items.len(),
    ensures
        attach_all(db, item, xs, author_step()).0.wf(),
        grows(db, attach_all(db, item, xs, author_step()).0),
        attach_all(db, item, xs, author_step()).1 is Ok ==> forall|j: int|
            0 <= j < xs.len() && ({
                let x = #[trigger] xs[j];
                x.url is Some
            }) ==> settled_author(attach_all(db, item, xs, author_step()).0, item, xs[j]),
    decreases xs.len(),
{
    if xs.len() > 0 {
        let before = attach_all(db, item, xs.drop_last(), author_step());
        lemma_attach_authors(db, item, xs.drop_last());
        if before.1 is Ok {
            let after = attach_author(before.0, item, xs.last());
            assert(author_step()(before.0, item, xs.last()) == after);
            lemma_attach_author(before.0, item, xs.last());
            lemma_grows_trans(db, before.0, after.0);
            if after.1 is Ok {
                assert forall|j: int|
                    0 <= j < xs.len() && ({
                        let x = #[trigger] xs[j];
                        x.url is Some
                    }) implies settled_author(after.0, item, xs[j]) by {
                    if j < xs.len() - 1 {
                        assert(xs.drop_last()[j] == xs[j]);
                        lemma_settled_author_stays(before.0, after.0, item, xs[j]);
                    }
                }
            }
        }
    }
}

/// Attaching authors that are all settled changes nothing.
pub proof fn lemma_attach_authors_again(db: Tables, item: i32, xs: Seq<AuthorView>)
    requires
        db.wf(),
        forall|j: int| 0 <= j < xs.len() ==> settled_author(db, item, #[trigger] xs[j]),
    ensures
        attach_all(db, item, xs, author_step()) == (db, Ok::<(), DBError>(())),
    decreases xs.len(),
{
    if xs.len() > 0 {
        assert forall|j: int| 0 <= j < xs.drop_last().len() implies settled_author(
            db,
            item,
            #[trigger] xs.drop_last()[j],
        ) by {
            assert(xs.drop_last()[j] == xs[j]);
        }
        lemma_attach_authors_again(db, item, xs.drop_last());
        assert(author_step()(db, item, xs.last()) == attach_author(db, item, xs.last()));
        lemma_attach_author_again(db, item, xs.last());
    }
}

/// The image is stored and attached to the item.
pub open spec fn settled_image(db: Tables, item: i32, x: ImageView) -> bool {
    &&& true
    &&& 1 <= item <= db.items.len()
    &&& match find(db.images, has_image_src(x.src)) {
        Some(k) => db.items_images.contains(Link { item_id: item, entity_id: (k + 1) as i32 }),
        None => false,
    }
}

/// Attaching an image keeps what holds of the store and loses nothing, and
/// after it the image is settled.
pub proof fn lemma_attach_image(db: Tables, item: i32, x: ImageView)
    requires
        db.wf(),
        1 <= item <= db.items.len(),
    ensures
        attach_image(db, item, x).0.wf(),
        grows(db, attach_image(db, item, x).0),
        true && attach_image(db, item, x).1 is Ok ==> settled_image(
            attach_image(db, item, x).0,
            item,
            x,
        ),
{
    let stored = upsert_image(db, x);
    if true {
        lemma_find(db.images, has_image_src(x.src));
        lemma_find(stored.0.images, has_image_src(x.src));
    }
    assert(stored.0.wf());
    assert(is_prefix(db.images, stored.0.images));
    if stored.1 is Ok {
        let id = stored.1->Ok_0;
        let link = Link { item_id: item, entity_id: id };
        lemma_with_link_within(stored.0.items_images, link);
        lemma_with_link_wf(stored.0.items_images, link, stored.0.items.len(), stored.0.images.len());
        if true {
            let k = id - 1;
            assert(has_image_src(x.src)(stored.0.images[k]));
            if find(stored.0.images, has_image_src(x.src))->Some_0 < k {
                let j = find(stored.0.images, has_image_src(x.src))->Some_0;
                assert(db.images[j] == stored.0.images[j]);
            }
        }
    }
}

/// An image that is settled stays settled when the store grows.
pub proof fn lemma_settled_image_stays(a: Tables, b: Tables, item: i32, x: ImageView)
    requires
        grows(a, b),
        settled_image(a, item, x),
    ensures
        settled_image(b, item, x),
{
    lemma_find_prefix(a.images, b.images, has_image_src(x.src));
    let k = find(a.images, has_image_src(x.src))->Some_0;
    assert(a.items_images.contains(Link { item_id: item, entity_id: (k + 1) as i32 }));
}

/// Attaching an image that is settled changes nothing.
pub proof fn lemma_attach_image_again(db: Tables, item: i32, x: ImageView)
    requires
        db.wf(),
        settled_image(db, item, x),
    ensures
        attach_image(db, item, x) == (db, Ok::<(), DBError>(())),
{
    lemma_find(db.images, has_image_src(x.src));
}

/// Attaching images keeps what holds of the store and loses nothing, and
/// after it each of them is settled.
pub proof fn lemma_attach_images(db: Tables, item: i32, xs: Seq<ImageView>)
    requires
        db.wf(),
        1 <= item <= db.items.len(),
    ensures
        attach_all(db, item, xs, image_step()).0.wf(),
        grows(db, attach_all(db, item, xs, image_step()).0),
        attach_all(db, item, xs, image_step()).1 is Ok ==> forall|j: int|
            0 <= j < xs.len() && ({
                let x = #[trigger] xs[j];
                true
            }) ==> settled_image(attach_all(db, item, xs, image_step()).0, item, xs[j]),
    decreases xs.len(),
{
    if xs.len() > 0 {
        let before = attach_all(db, item, xs.drop_last(), image_step());
        lemma_attach_images(db, item, xs.drop_last());
        if before.1 is Ok {
            let after = attach_image(before.0, item, xs.last());
            assert(image_step()(before.0, item, xs.last()) == after);
            lemma_attach_image(before.0, item, xs.last());
            lemma_grows_trans(db, before.0, after.0);
            if after.1 is Ok {
                assert forall|j: int|
                    0 <= j < xs.len() && ({
                        let x = #[trigger] xs[j];
                        true
                    }) implies settled_image(after.0, item, xs[j]) by {
                    if j < xs.len() - 1 {
                        assert(xs.drop_last()[j] == xs[j]);
                        lemma_settled_image_stays(before.0, after.0, item, xs[j]);
                    }
                }
            }
        }
    }
}

/// Attaching images that are all settled changes nothing.
pub proof fn lemma_attach_images_again(db: Tables, item: i32, xs: Seq<ImageView>)
    requires
        db.wf(),
        forall|j: int| 0 <= j < xs.len() ==> settled_image(db, item, #[trigger] xs[j]),
    ensures
        attach_all(db, item, xs, image_step()) == (db, Ok::<(), DBError>(())),
    decreases xs.len(),
{
    if xs.len() > 0 {
        assert forall|j: int| 0 <= j < xs.drop_last().len() implies settled_image(
            db,
            item,
            #[trigger] xs.drop_last()[j],
        ) by {
            assert(xs.drop_last()[j] == xs[j]);
        }
        lemma_attach_images_again(db, item, xs.drop_last());
        assert(image_step()(db, item, xs.last()) == attach_image(db, item, xs.last()));
        lemma_attach_image_again(db, item, xs.last());
    }
}

/// The video is stored and attached to the item.
pub open spec fn settled_video(db: Tables, item: i32, x: VideoView) -> bool {
    &&& true
    &&& 1 <= item <= db.items.len()
    &&& match find(db.videos, has_video_src(x.src)) {
        Some(k) => db.items_videos.contains(Link { item_id: item, entity_id: (k + 1) as i32 }),
        None => false,
    }
}

/// Attaching a video keeps what holds of the store and loses nothing, and
/// after it the video is settled.
pub proof fn lemma_attach_video(db: Tables, item: i32, x: VideoView)
    requires
        db.wf(),
        1 <= item <= db.items.len(),
    ensures
        attach_video(db, item, x).0.wf(),
        grows(db, attach_video(db, item, x).0),
        true && attach_video(db, item, x).1 is Ok ==> settled_video(
            attach_video(db, item, x).0,
            item,
            x,
        ),
{
    let stored = upsert_video(db, x);
    if true {
        lemma_find(db.videos, has_video_src(x.src));
        lemma_find(stored.0.videos, has_video_src(x.src));
    }
    assert(stored.0.wf());
    assert(is_prefix(db.videos, stored.0.videos));
    if stored.1 is Ok {
        let id = stored.1->Ok_0;
        let link = Link { item_id: item, entity_id: id };
        lemma_with_link_within(stored.0.items_videos, link);
        lemma_with_link_wf(stored.0.items_videos, link, stored.0.items.len(), stored.0.videos.len());
        if true {
            let k = id - 1;
            assert(has_video_src(x.src)(stored.0.videos[k]));
            if find(stored.0.videos, has_video_src(x.src))->Some_0 < k {
                let j = find(stored.0.videos, has_video_src(x.src))->Some_0;
                assert(db.videos[j] == stored.0.videos[j]);
            }
        }
    }
}

/// A video that is settled stays settled when the store grows.
pub proof fn lemma_settled_video_stays(a: Tables, b: Tables, item: i32, x: VideoView)
    requires
        grows(a, b),
        settled_video(a, item, x),
    ensures
        settled_video(b, item, x),
{
    lemma_find_prefix(a.videos, b.videos, has_video_src(x.src));
    let k = find(a.videos, has_video_src(x.src))->Some_0;
    assert(a.items_videos.contains(Link { item_id: item, entity_id: (k + 1) as i32 }));
}

/// Attaching a video that is settled changes nothing.
pub proof fn lemma_attach_video_again(db: Tables, item: i32, x: VideoView)
    requires
        db.wf(),
        settled_video(db, item, x),
    ensures
        attach_video(db, item, x) == (db, Ok::<(), DBError>(())),
{
    lemma_find(db.videos, has_video_src(x.src));
}

/// Attaching videos keeps what holds of the store and loses nothing, and
/// after it each of them is settled.
pub proof fn lemma_attach_videos(db: Tables, item: i32, xs: Seq<VideoView>)
    requires
        db.wf(),
        1 <= item <= db.items.len(),
    ensures
        attach_all(db, item, xs, video_step()).0.wf(),
        grows(db, attach_all(db, item, xs, video_step()).0),
        attach_all(db, item, xs, video_step()).1 is Ok ==> forall|j: int|
            0 <= j < xs.len() && ({
                let x = #[trigger] xs[j];
                true
            }) ==> settled_video(attach_all(db, item, xs, video_step()).0, item, xs[j]),
    decreases xs.len(),
{
    if xs.len() > 0 {
        let before = attach_all(db, item, xs.drop_last(), video_step());
        lemma_attach_videos(db, item, xs.drop_last());
        if before.1 is Ok {
            let after = attach_video(before.0, item, xs.last());
            assert(video_step()(before.0, item, xs.last()) == after);
            lemma_attach_video(before.0, item, xs.last());
            lemma_grows_trans(db, before.0, after.0);
            if after.1 is Ok {
                assert forall|j: int|
                    0 <= j < xs.len() && ({
                        let x = #[trigger] xs[j];
                        true
                    }) implies settled_video(after.0, item, xs[j]) by {
                    if j < xs.len() - 1 {
                        assert(xs.drop_last()[j] == xs[j]);
                        lemma_settled_video_stays(before.0, after.0, item, xs[j]);
                    }
                }
            }
        }
    }
}

/// Attaching videos that are all settled changes nothing.
pub proof fn lemma_attach_videos_again(db: Tables, item: i32, xs: Seq<VideoView>)
    requires
        db.wf(),
        forall|j: int| 0 <= j < xs.len() ==> settled_video(db, item, #[trigger] xs[j]),
    ensures
        attach_all(db, item, xs, video_step()) == (db, Ok::<(), DBError>(())),
    decreases xs.len(),
{
    if xs.len() > 0 {
        assert forall|j: int| 0 <= j < xs.drop_last().len() implies settled_video(
            db,
            item,
            #[trigger] xs.drop_last()[j],
        ) by {
            assert(xs.drop_last()[j] == xs[j]);
        }
        lemma_attach_videos_again(db, item, xs.drop_last());
        assert(video_step()(db, item, xs.last()) == attach_video(db, item, xs.last()));
        lemma_attach_video_again(db, item, xs.last());
    }
}

/// Submitting an item again changes nothing: the second submission of the same
/// item, with the same things attached, leaves the store as the first left it
/// and resolves to the same id. This is why an item that is delivered more
/// than once does no harm. The first submission must have been taken, and the
/// authors must have urls: an author without url has no key to be found by,
/// and is stored anew each time.
pub proof fn law_add_again(
    db: Tables,
    item: ItemScalars,
    tags: Seq<TagView>,
    authors: Seq<AuthorView>,
    images: Seq<ImageView>,
    videos: Seq<VideoView>,
)
    requires
        db.wf(),
        add_item(db, item, tags, authors, images, videos).1 is Ok,
        forall|j: int| 0 <= j < authors.len() ==> (#[trigger] authors[j]).url is Some,
    ensures
        add_item(
            add_item(db, item, tags, authors, images, videos).0,
            item,
            tags,
            authors,
            images,
            videos,
        ) == add_item(db, item, tags, authors, images, videos),
        add_item(db, item, tags, authors, images, videos).0.wf(),
{
    let row = upsert_item(db, item);
    let id = row.1->Ok_0;
    lemma_upsert_item_wf(db, item);
    let t = attach_all(row.0, id, tags, tag_step());
    lemma_attach_tags(row.0, id, tags);
    let a = attach_all(t.0, id, authors, author_step());
    lemma_attach_authors(t.0, id, authors);
    let i = attach_all(a.0, id, images, image_step());
    lemma_attach_images(a.0, id, images);
    let v = attach_all(i.0, id, videos, video_step());
    lemma_attach_videos(i.0, id, videos);
    let last = v.0;
    lemma_grows_trans(a.0, i.0, last);
    lemma_grows_trans(t.0, a.0, last);
    lemma_grows_trans(row.0, t.0, last);
    lemma_upsert_item_again(db, item, last);
    assert forall|j: int| 0 <= j < tags.len() implies settled_tag(last, id, #[trigger] tags[j]) by {
        lemma_grows_trans(t.0, a.0, last);
        lemma_settled_tag_stays(t.0, last, id, tags[j]);
    }
    assert forall|j: int| 0 <= j < authors.len() implies settled_author(
        last,
        id,
        #[trigger] authors[j],
    ) by {
        lemma_settled_author_stays(a.0, last, id, authors[j]);
    }
    assert forall|j: int| 0 <= j < images.len() implies settled_image(
        last,
        id,
        #[trigger] images[j],
    ) by {
        lemma_settled_image_stays(i.0, last, id, images[j]);
    }
    lemma_attach_tags_again(last, id, tags);
    lemma_attach_authors_again(last, id, authors);
    lemma_attach_images_again(last, id, images);
    lemma_attach_videos_again(last, id, videos);
}

/// No submission deletes anything, whether it is taken or refused half-way.
/// What holds of the store still holds. Every item row is still there under
/// its id, as it was or with the status and timestamps of the submission.
/// Every tag, author, image and video is still there under its id, and every
/// link is still there.
pub proof fn law_add_keeps_rows(
    db: Tables,
    item: ItemScalars,
    tags: Seq<TagView>,
    authors: Seq<AuthorView>,
    images: Seq<ImageView>,
    videos: Seq<VideoView>,
)
    requires
        db.wf(),
    ensures
        ({
            let after = add_item(db, item, tags, authors, images, videos).0;
            &&& after.wf()
            &&& db.items.len() <= after.items.len()
            &&& forall|k: int|
                0 <= k < db.items.len() ==> #[trigger] after.items[k] == db.items[k]
                    || after.items[k] == resubmitted(db.items[k], item)
            &&& is_prefix(db.tags, after.tags)
            &&& is_prefix(db.authors, after.authors)
            &&& is_prefix(db.images, after.images)
            &&& is_prefix(db.videos, after.videos)
            &&& within(db.items_tags, after.items_tags)
            &&& within(db.items_authors, after.items_authors)
            &&& within(db.items_images, after.items_images)
            &&& within(db.items_videos, after.items_videos)
        }),
{
    let row = upsert_item(db, item);
    lemma_upsert_item_wf(db, item);
    lemma_find(db.items, has_url(item.url));
    if item.pocket_id is Some {
        lemma_find(db.items, has_remote_id(item.pocket_id->Some_0));
    }
    if row.1 is Ok {
        let id = row.1->Ok_0;
        let t = attach_all(row.0, id, tags, tag_step());
        lemma_attach_tags(row.0, id, tags);
        let a = attach_all(t.0, id, authors, author_step());
        lemma_attach_authors(t.0, id, authors);
        let i = attach_all(a.0, id, images, image_step());
        lemma_attach_images(a.0, id, images);
        let v = attach_all(i.0, id, videos, video_step());
        lemma_attach_videos(i.0, id, videos);
        lemma_grows_trans(row.0, t.0, a.0);
        lemma_grows_trans(row.0, a.0, i.0);
        lemma_grows_trans(row.0, i.0, v.0);
    }
}

} // verus!
