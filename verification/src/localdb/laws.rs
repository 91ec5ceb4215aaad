//! Laws of the store: what holds of every store and every submission.

use crate::localdb::error::DBError;
use crate::localdb::join::{
    bare_row, item_rows, linked, linked_ids, slots, stored_aggregate, with_authors, with_images,
    with_tags,
};
use crate::localdb::row::ItemRowView;
use crate::localdb::model::{AuthorView, ImageView, ItemScalars, TagView, VideoView};
use crate::localdb::tables::{
    add_item, attach_all, attach_author, attach_image, attach_tag, attach_video, author_step,
    count, find, has_remote_id, has_slug, image_step, is_link, lemma_find, link_in_range,
    link_tag, resubmitted, tag_step, upsert_item, upsert_tag, video_step, with_link, Link,
    Tables,
};
use crate::text::lowercase_of;
use vstd::prelude::*;

verus! {

/// The link belongs to this item.
pub open spec fn of_item(item: int) -> spec_fn(Link) -> bool {
    |l: Link| l.item_id == item
}

/// Where no element satisfies `p`, none is counted.
pub proof fn lemma_count_none<A>(s: Seq<A>, p: spec_fn(A) -> bool)
    requires
        forall|j: int| 0 <= j < s.len() ==> !p(s[j]),
    ensures
        count(s, p) == 0,
    decreases s.len(),
{
    if s.len() > 0 {
        assert forall|j: int| 0 <= j < s.drop_last().len() implies !p(s.drop_last()[j]) by {
            assert(s.drop_last()[j] == s[j]);
        }
        lemma_count_none(s.drop_last(), p);
    }
}

/// Where one element satisfies `p` and no other does, one is counted.
pub proof fn lemma_count_one<A>(s: Seq<A>, p: spec_fn(A) -> bool, k: int)
    requires
        0 <= k < s.len(),
        p(s[k]),
        forall|j: int| 0 <= j < s.len() && j != k ==> !p(s[j]),
    ensures
        count(s, p) == 1,
    decreases s.len(),
{
    let shorter = s.drop_last();
    assert forall|j: int| 0 <= j < shorter.len() implies shorter[j] == s[j] by {}
    if k == s.len() - 1 {
        lemma_count_none(shorter, p);
    } else {
        assert(shorter[k] == s[k]);
        lemma_count_one(shorter, p, k);
    }
}

/// Tags whose slugs are the same in lowercase are stored as one row: after the
/// first is stored, storing the second changes nothing and resolves to the same
/// id, and the store holds exactly one tag with that slug. The first must have
/// been taken: a full table takes no new slug.
pub proof fn law_same_slug_one_row(db: Tables, first: TagView, second: TagView)
    requires
        db.wf(),
        lowercase_of(first.tag) == lowercase_of(second.tag),
        upsert_tag(db, lowercase_of(first.tag), first.name).1 is Ok,
    ensures
        ({
            let one = upsert_tag(db, lowercase_of(first.tag), first.name);
            let two = upsert_tag(one.0, lowercase_of(second.tag), second.name);
            &&& two.0 == one.0
            &&& two.1 == one.1
            &&& count(two.0.tags, has_slug(lowercase_of(first.tag))) == 1
        }),
{
    let slug = lowercase_of(first.tag);
    let one = upsert_tag(db, slug, first.name);
    lemma_find(db.tags, has_slug(slug));
    lemma_find(one.0.tags, has_slug(slug));
    let k = one.1->Ok_0 - 1;
    assert(has_slug(slug)(one.0.tags[k]));
    assert forall|j: int| 0 <= j < one.0.tags.len() && j != k implies !has_slug(slug)(
        one.0.tags[j],
    ) by {
        if find(db.tags, has_slug(slug)) is Some {
            if j < k {
                assert(db.tags[j].tag != db.tags[k].tag);
            } else {
                assert(db.tags[k].tag != db.tags[j].tag);
            }
        }
    }
    lemma_count_one(one.0.tags, has_slug(slug), k);
}

/// A link that is put into a link table twice is there once: the second time
/// changes nothing.
pub proof fn law_with_link_once(links: Seq<Link>, link: Link)
    requires
        links.no_duplicates(),
    ensures
        with_link(with_link(links, link), link) == with_link(links, link),
        with_link(links, link).no_duplicates(),
        count(with_link(links, link), is_link(link)) == 1,
{
    let after = with_link(links, link);
    if !links.contains(link) {
        assert(after[links.len() as int] == link);
        assert forall|i: int, j: int|
            0 <= i < after.len() && 0 <= j < after.len() && i != j implies after[i]
            != after[j] by {
            if i < links.len() && j < links.len() {
            } else if i < links.len() {
                assert(links.contains(links[i]));
            } else {
                assert(links.contains(links[j]));
            }
        }
    }
    assert(after.contains(link));
    let k = choose|k: int| 0 <= k < after.len() && after[k] == link;
    lemma_count_one(after, is_link(link), k);
}

/// Attaching a tag to an item twice leaves exactly one link row: the second
/// call changes nothing. Tag and item must exist.
pub proof fn law_link_once(db: Tables, tag: i32, item: i32)
    requires
        db.wf(),
        link_in_range(Link { item_id: item, entity_id: tag }, db.items.len(), db.tags.len()),
    ensures
        ({
            let once = link_tag(db, tag, item);
            let twice = link_tag(once.0, tag, item);
            &&& twice == once
            &&& once.1 is Ok
            &&& count(twice.0.items_tags, is_link(Link { item_id: item, entity_id: tag })) == 1
        }),
{
    law_with_link_once(db.items_tags, Link { item_id: item, entity_id: tag });
}

/// Attaching sub-entities to an item leaves the item table as it is.
pub proof fn lemma_attach_keeps_items<A>(
    db: Tables,
    item: i32,
    entities: Seq<A>,
    one: spec_fn(Tables, i32, A) -> (Tables, Result<(), DBError>),
)
    requires
        forall|d: Tables, i: i32, a: A| (#[trigger] one(d, i, a)).0.items == d.items,
    ensures
        attach_all(db, item, entities, one).0.items == db.items,
    decreases entities.len(),
{
    if entities.len() > 0 {
        lemma_attach_keeps_items(db, item, entities.drop_last(), one);
    }
}

/// Submitting an item leaves every row of the item table as the item's own row
/// step left it.
pub proof fn lemma_add_item_rows(
    db: Tables,
    item: ItemScalars,
    tags: Seq<TagView>,
    authors: Seq<AuthorView>,
    images: Seq<ImageView>,
    videos: Seq<VideoView>,
)
    ensures
        add_item(db, item, tags, authors, images, videos).0.items == upsert_item(db, item).0.items,
        add_item(db, item, tags, authors, images, videos).1 is Ok ==> add_item(
            db,
            item,
            tags,
            authors,
            images,
            videos,
        ).1 == upsert_item(db, item).1,
{
    let row = upsert_item(db, item);
    if row.1 is Ok {
        let id = row.1->Ok_0;
        assert forall|d: Tables, i: i32, a: TagView| (#[trigger] tag_step()(d, i, a)).0.items
            == d.items by {
            assert(tag_step()(d, i, a) == attach_tag(d, i, a));
        }
        assert forall|d: Tables, i: i32, a: AuthorView|
            (#[trigger] author_step()(d, i, a)).0.items == d.items by {
            assert(author_step()(d, i, a) == attach_author(d, i, a));
        }
        assert forall|d: Tables, i: i32, a: ImageView| (#[trigger] image_step()(d, i, a)).0.items
            == d.items by {
            assert(image_step()(d, i, a) == attach_image(d, i, a));
        }
        assert forall|d: Tables, i: i32, a: VideoView| (#[trigger] video_step()(d, i, a)).0.items
            == d.items by {
            assert(video_step()(d, i, a) == attach_video(d, i, a));
        }
        let t = attach_all(row.0, id, tags, tag_step());
        lemma_attach_keeps_items(row.0, id, tags, tag_step());
        let a = attach_all(t.0, id, authors, author_step());
        lemma_attach_keeps_items(t.0, id, authors, author_step());
        let i = attach_all(a.0, id, images, image_step());
        lemma_attach_keeps_items(a.0, id, images, image_step());
        lemma_attach_keeps_items(i.0, id, videos, video_step());
    }
}

/// An item with a remote id that is submitted twice has one row. The second
/// submission resolves to the row of the first and gives it its status and its
/// four timestamps; everything else in the row stays as the first left it, and
/// where the first made the row, that is what the first submitted. The first
/// submission must have been taken.
pub proof fn law_resubmission(
    db: Tables,
    first: ItemScalars,
    first_tags: Seq<TagView>,
    first_authors: Seq<AuthorView>,
    first_images: Seq<ImageView>,
    first_videos: Seq<VideoView>,
    second: ItemScalars,
    second_tags: Seq<TagView>,
    second_authors: Seq<AuthorView>,
    second_images: Seq<ImageView>,
    second_videos: Seq<VideoView>,
)
    requires
        db.wf(),
        first.pocket_id is Some,
        second.pocket_id == first.pocket_id,
        add_item(db, first, first_tags, first_authors, first_images, first_videos).1 is Ok,
    ensures
        ({
            let one = add_item(db, first, first_tags, first_authors, first_images, first_videos);
            let two = add_item(
                one.0,
                second,
                second_tags,
                second_authors,
                second_images,
                second_videos,
            );
            let k = one.1->Ok_0 - 1;
            &&& 0 <= k < one.0.items.len()
            &&& two.0.items.len() == one.0.items.len()
            &&& count(two.0.items, has_remote_id(first.pocket_id->Some_0)) == 1
            &&& two.1 is Ok ==> two.1 == one.1
            &&& two.0.items[k] == resubmitted(one.0.items[k], second)
            &&& find(db.items, has_remote_id(first.pocket_id->Some_0)) is None ==> one.0.items[k]
                == ItemScalars { id: (k + 1) as i64, ..first }
        }),
{
    let remote = first.pocket_id->Some_0;
    let one = add_item(db, first, first_tags, first_authors, first_images, first_videos);
    let two = add_item(one.0, second, second_tags, second_authors, second_images, second_videos);
    lemma_add_item_rows(db, first, first_tags, first_authors, first_images, first_videos);
    lemma_add_item_rows(one.0, second, second_tags, second_authors, second_images, second_videos);
    lemma_find(db.items, has_remote_id(remote));
    lemma_find(db.items, crate::localdb::tables::has_url(first.url));
    lemma_find(one.0.items, has_remote_id(remote));
    let k = one.1->Ok_0 - 1;
    assert(has_remote_id(remote)(one.0.items[k]));
    assert forall|j: int| 0 <= j < one.0.items.len() && j != k implies !has_remote_id(remote)(
        one.0.items[j],
    ) by {
        if find(db.items, has_remote_id(remote)) is Some {
            if j < k {
                assert(db.items[j].pocket_id is Some ==> db.items[j].pocket_id
                    != db.items[k].pocket_id);
            } else {
                assert(db.items[k].pocket_id != db.items[j].pocket_id);
            }
        }
    }
    assert(find(one.0.items, has_remote_id(remote)) == Some(k));
    let after = two.0.items;
    assert(after =~= one.0.items.update(k, resubmitted(one.0.items[k], second)));
    assert(has_remote_id(remote)(after[k]));
    assert forall|j: int| 0 <= j < after.len() && j != k implies !has_remote_id(remote)(
        after[j],
    ) by {
        assert(after[j] == one.0.items[j]);
    }
    lemma_count_one(after, has_remote_id(remote), k);
}

/// The ids attached to an item are those of its link rows, each once.
pub proof fn lemma_linked_ids(links: Seq<Link>, item: int)
    requires
        links.no_duplicates(),
    ensures
        linked_ids(links, item).no_duplicates(),
        linked_ids(links, item).len() == count(links, of_item(item)),
        forall|e: i32|
            linked_ids(links, item).contains(e) <==> exists|j: int|
                0 <= j < links.len() && (#[trigger] links[j]).item_id == item && links[j].entity_id
                    == e,
    decreases links.len(),
{
    if links.len() > 0 {
        let shorter = links.drop_last();
        let last = links.last();
        let before = linked_ids(shorter, item);
        let ids = linked_ids(links, item);
        assert forall|j: int| 0 <= j < shorter.len() implies shorter[j] == links[j] by {}
        lemma_linked_ids(shorter, item);
        assert forall|e: i32|
            ids.contains(e) <==> exists|j: int|
                0 <= j < links.len() && (#[trigger] links[j]).item_id == item && links[j].entity_id
                    == e by {
            if ids.contains(e) {
                let i = choose|i: int| 0 <= i < ids.len() && ids[i] == e;
                if i < before.len() {
                    assert(before[i] == e);
                    assert(before.contains(e));
                    let j = choose|j: int|
                        0 <= j < shorter.len() && (#[trigger] shorter[j]).item_id == item
                            && shorter[j].entity_id == e;
                    assert(links[j].item_id == item && links[j].entity_id == e);
                } else {
                    assert(links[links.len() - 1].item_id == item);
                }
            }
            if exists|j: int|
                0 <= j < links.len() && (#[trigger] links[j]).item_id == item && links[j].entity_id
                    == e {
                let j = choose|j: int|
                    0 <= j < links.len() && (#[trigger] links[j]).item_id == item
                        && links[j].entity_id == e;
                if j < shorter.len() {
                    assert(shorter[j].item_id == item && shorter[j].entity_id == e);
                    assert(before.contains(e));
                    let i = choose|i: int| 0 <= i < before.len() && before[i] == e;
                    assert(ids[i] == e);
                } else {
                    assert(ids[before.len() as int] == e);
                }
            }
        }
        if last.item_id == item {
            assert(!before.contains(last.entity_id)) by {
                if before.contains(last.entity_id) {
                    let j = choose|j: int|
                        0 <= j < shorter.len() && (#[trigger] shorter[j]).item_id == item
                            && shorter[j].entity_id == last.entity_id;
                    assert(links[j] == links[links.len() - 1]);
                }
            }
            assert forall|a: int, b: int|
                0 <= a < ids.len() && 0 <= b < ids.len() && a != b implies ids[a] != ids[b] by {
                if a < before.len() && b < before.len() {
                } else if a < before.len() {
                    assert(before.contains(before[a]));
                } else {
                    assert(before.contains(before[b]));
                }
            }
        }
    }
}

/// What is attached to an item through a link table: one sub-entity for each
/// link row of the item, and none twice.
pub proof fn lemma_linked<A>(entities: Seq<A>, links: Seq<Link>, item: int, items: nat)
    requires
        crate::localdb::tables::links_wf(links, items, entities.len()),
        entities.no_duplicates(),
    ensures
        linked(entities, links, item).no_duplicates(),
        linked(entities, links, item).len() == count(links, of_item(item)),
        linked(entities, links, item).to_set().finite(),
        linked(entities, links, item).to_set().len() == count(links, of_item(item)),
{
    lemma_linked_ids(links, item);
    let ids = linked_ids(links, item);
    let attached = linked(entities, links, item);
    assert forall|a: int| 0 <= a < ids.len() implies 1 <= #[trigger] ids[a] <= entities.len() by {
        assert(ids.contains(ids[a]));
        let j = choose|j: int|
            0 <= j < links.len() && (#[trigger] links[j]).item_id == item && links[j].entity_id
                == ids[a];
    }
    assert forall|a: int, b: int|
        0 <= a < attached.len() && 0 <= b < attached.len() && a != b implies attached[a]
        != attached[b] by {
        assert(ids[a] != ids[b]);
    }
    attached.unique_seq_to_set();
    vstd::seq_lib::seq_to_set_is_finite(attached);
}

/// The rows of a table whose ids follow the order of insertion are distinct.
pub proof fn lemma_tables_distinct(db: Tables)
    requires
        db.wf(),
    ensures
        db.tags.no_duplicates(),
        db.authors.no_duplicates(),
        db.images.no_duplicates(),
        db.videos.no_duplicates(),
{
    assert forall|a: int, b: int|
        0 <= a < db.tags.len() && 0 <= b < db.tags.len() && a != b implies db.tags[a]
        != db.tags[b] by {
        assert(db.tags[a].id != db.tags[b].id);
    }
    assert forall|a: int, b: int|
        0 <= a < db.authors.len() && 0 <= b < db.authors.len() && a != b implies db.authors[a]
        != db.authors[b] by {
        assert(db.authors[a].id != db.authors[b].id);
    }
    assert forall|a: int, b: int|
        0 <= a < db.images.len() && 0 <= b < db.images.len() && a != b implies db.images[a]
        != db.images[b] by {
        assert(db.images[a].id != db.images[b].id);
    }
    assert forall|a: int, b: int|
        0 <= a < db.videos.len() && 0 <= b < db.videos.len() && a != b implies db.videos[a]
        != db.videos[b] by {
        assert(db.videos[a].id != db.videos[b].id);
    }
}

/// An item that is linked to so many tags, authors, images and videos has sets
/// of just these sizes in its aggregate, however many rows the join makes of
/// them: the size of each set is the number of the item's rows in that link
/// table.
pub proof fn law_sets_count_links(db: Tables, k: int)
    requires
        db.wf(),
        0 <= k < db.items.len(),
    ensures
        stored_aggregate(db, k).tags.finite(),
        stored_aggregate(db, k).tags.len() == count(db.items_tags, of_item(k + 1)),
        stored_aggregate(db, k).authors.finite(),
        stored_aggregate(db, k).authors.len() == count(db.items_authors, of_item(k + 1)),
        stored_aggregate(db, k).images.finite(),
        stored_aggregate(db, k).images.len() == count(db.items_images, of_item(k + 1)),
        stored_aggregate(db, k).videos.finite(),
        stored_aggregate(db, k).videos.len() == count(db.items_videos, of_item(k + 1)),
{
    lemma_tables_distinct(db);
    lemma_linked(db.tags, db.items_tags, k + 1, db.items.len());
    lemma_linked(db.authors, db.items_authors, k + 1, db.items.len());
    lemma_linked(db.images, db.items_images, k + 1, db.items.len());
    lemma_linked(db.videos, db.items_videos, k + 1, db.items.len());
}

/// The number of rows over image and video slots.
pub proof fn lemma_with_images_len(
    base: ItemRowView,
    images: Seq<Option<ImageView>>,
    videos: Seq<Option<VideoView>>,
)
    ensures
        with_images(base, images, videos).len() == images.len() * videos.len(),
    decreases images.len(),
{
    if images.len() > 0 {
        lemma_with_images_len(base, images.drop_last(), videos);
        assert((images.len() - 1) * videos.len() + videos.len() == images.len() * videos.len())
            by (nonlinear_arith);
    }
}

/// The number of rows over author, image and video slots.
pub proof fn lemma_with_authors_len(
    base: ItemRowView,
    authors: Seq<Option<AuthorView>>,
    images: Seq<Option<ImageView>>,
    videos: Seq<Option<VideoView>>,
)
    ensures
        with_authors(base, authors, images, videos).len() == authors.len() * (images.len()
            * videos.len()),
    decreases authors.len(),
{
    if authors.len() > 0 {
        lemma_with_authors_len(base, authors.drop_last(), images, videos);
        lemma_with_images_len(ItemRowView { author: authors.last(), ..base }, images, videos);
        let inner = images.len() * videos.len();
        assert((authors.len() - 1) * inner + inner == authors.len() * inner) by (nonlinear_arith);
    }
}

/// The number of rows over the slots of all four relations.
pub proof fn lemma_with_tags_len(
    base: ItemRowView,
    tags: Seq<Option<TagView>>,
    authors: Seq<Option<AuthorView>>,
    images: Seq<Option<ImageView>>,
    videos: Seq<Option<VideoView>>,
)
    ensures
        with_tags(base, tags, authors, images, videos).len() == tags.len() * (authors.len() * (
        images.len() * videos.len())),
    decreases tags.len(),
{
    if tags.len() > 0 {
        lemma_with_tags_len(base, tags.drop_last(), authors, images, videos);
        lemma_with_authors_len(ItemRowView { tag: tags.last(), ..base }, authors, images, videos);
        let inner = authors.len() * (images.len() * videos.len());
        assert((tags.len() - 1) * inner + inner == tags.len() * inner) by (nonlinear_arith);
    }
}

/// The number of slots of a relation: one for each attached sub-entity, and one
/// where there is none.
pub open spec fn slot_count(attached: nat) -> nat {
    if attached == 0 {
        1
    } else {
        attached
    }
}

/// The join multiplies: an item has as many rows as there are combinations of a
/// slot of each relation, where a relation with nothing attached counts for one.
/// An item with two tags and three images, and no author or video, has six.
pub proof fn law_join_multiplies(db: Tables, k: int)
    requires
        db.wf(),
        0 <= k < db.items.len(),
    ensures
        item_rows(db, k).len() == slot_count(count(db.items_tags, of_item(k + 1))) * (slot_count(
            count(db.items_authors, of_item(k + 1)),
        ) * (slot_count(count(db.items_images, of_item(k + 1))) * slot_count(
            count(db.items_videos, of_item(k + 1)),
        ))),
{
    lemma_tables_distinct(db);
    lemma_linked(db.tags, db.items_tags, k + 1, db.items.len());
    lemma_linked(db.authors, db.items_authors, k + 1, db.items.len());
    lemma_linked(db.images, db.items_images, k + 1, db.items.len());
    lemma_linked(db.videos, db.items_videos, k + 1, db.items.len());
    lemma_with_tags_len(
        bare_row(db.items[k]),
        slots(linked(db.tags, db.items_tags, k + 1)),
        slots(linked(db.authors, db.items_authors, k + 1)),
        slots(linked(db.images, db.items_images, k + 1)),
        slots(linked(db.videos, db.items_videos, k + 1)),
    );
}

} // verus!
