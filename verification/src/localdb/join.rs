//! The combined join of the items with their four relations, and what folding
//! its rows gives: every stored item once, with what is attached to it.

use crate::localdb::model::{
    opt_view, opt_views, views, Author, AuthorView, Entity, Image, ImageView, Item, ItemScalars,
    ItemView, Tag, TagView, Video, VideoView,
};
use crate::localdb::row::{
    aggregate, carried, first_seen, group_authors, group_images, group_tags, group_videos,
    last_row_of, lemma_last_row_of, row_ids, ItemRow, ItemRowView,
};
use crate::localdb::tables::{Link, Tables};
use vstd::prelude::*;

verus! {

/// The ids of the sub-entities attached to an item, in the order of the link
/// table.
pub open spec fn linked_ids(links: Seq<Link>, item: int) -> Seq<i32>
    decreases links.len(),
{
    if links.len() == 0 {
        Seq::empty()
    } else {
        let before = linked_ids(links.drop_last(), item);
        if links.last().item_id == item {
            before.push(links.last().entity_id)
        } else {
            before
        }
    }
}

/// The sub-entities attached to an item, in the order of the link table.
pub open spec fn linked<A>(entities: Seq<A>, links: Seq<Link>, item: int) -> Seq<A> {
    linked_ids(links, item).map_values(|id: i32| entities[id - 1])
}

/// What a left join puts beside an item for one relation: each attached
/// sub-entity in turn, or a single null where nothing is attached.
pub open spec fn slots<A>(s: Seq<A>) -> Seq<Option<A>> {
    if s.len() == 0 {
        seq![None]
    } else {
        s.map_values(|a: A| Some(a))
    }
}

/// The rows that differ from `base` in the video only, one for each slot.
pub open spec fn with_videos(base: ItemRowView, videos: Seq<Option<VideoView>>) -> Seq<
    ItemRowView,
> {
    videos.map_values(|v: Option<VideoView>| ItemRowView { video: v, ..base })
}

/// The rows for every image slot, each with every video slot.
pub open spec fn with_images(
    base: ItemRowView,
    images: Seq<Option<ImageView>>,
    videos: Seq<Option<VideoView>>,
) -> Seq<ItemRowView>
    decreases images.len(),
{
    if images.len() == 0 {
        Seq::empty()
    } else {
        with_images(base, images.drop_last(), videos) + with_videos(
            ItemRowView { image: images.last(), ..base },
            videos,
        )
    }
}

/// The rows for every author slot, each with every image and video slot.
pub open spec fn with_authors(
    base: ItemRowView,
    authors: Seq<Option<AuthorView>>,
    images: Seq<Option<ImageView>>,
    videos: Seq<Option<VideoView>>,
) -> Seq<ItemRowView>
    decreases authors.len(),
{
    if authors.len() == 0 {
        Seq::empty()
    } else {
        with_authors(base, authors.drop_last(), images, videos) + with_images(
            ItemRowView { author: authors.last(), ..base },
            images,
            videos,
        )
    }
}

/// The rows for every tag slot, each with every author, image and video slot.
pub open spec fn with_tags(
    base: ItemRowView,
    tags: Seq<Option<TagView>>,
    authors: Seq<Option<AuthorView>>,
    images: Seq<Option<ImageView>>,
    videos: Seq<Option<VideoView>>,
) -> Seq<ItemRowView>
    decreases tags.len(),
{
    if tags.len() == 0 {
        Seq::empty()
    } else {
        with_tags(base, tags.drop_last(), authors, images, videos) + with_authors(
            ItemRowView { tag: tags.last(), ..base },
            authors,
            images,
            videos,
        )
    }
}

/// A row that carries the item columns and nothing else.
pub open spec fn bare_row(scalars: ItemScalars) -> ItemRowView {
    ItemRowView { scalars, tag: None, author: None, image: None, video: None }
}

/// The rows of the join for the item at place `k`: one for each combination of a
/// tag, an author, an image and a video attached to it.
pub open spec fn item_rows(db: Tables, k: int) -> Seq<ItemRowView> {
    with_tags(
        bare_row(db.items[k]),
        slots(linked(db.tags, db.items_tags, k + 1)),
        slots(linked(db.authors, db.items_authors, k + 1)),
        slots(linked(db.images, db.items_images, k + 1)),
        slots(linked(db.videos, db.items_videos, k + 1)),
    )
}

/// The rows of the join for the first `n` items.
pub open spec fn joined(db: Tables, n: int) -> Seq<ItemRowView>
    decreases n,
{
    if n <= 0 {
        Seq::empty()
    } else {
        joined(db, n - 1) + item_rows(db, n - 1)
    }
}

/// The rows of the join of all items, item after item.
pub open spec fn join(db: Tables) -> Seq<ItemRowView> {
    joined(db, db.items.len() as int)
}

/// A stored item with what is attached to it.
pub open spec fn stored_aggregate(db: Tables, k: int) -> ItemView {
    ItemView {
        scalars: db.items[k],
        tags: linked(db.tags, db.items_tags, k + 1).to_set(),
        authors: linked(db.authors, db.items_authors, k + 1).to_set(),
        images: linked(db.images, db.items_images, k + 1).to_set(),
        videos: linked(db.videos, db.items_videos, k + 1).to_set(),
    }
}

/// The rows that differ in the video only are those with one of the video slots.
pub proof fn lemma_with_videos(base: ItemRowView, videos: Seq<Option<VideoView>>, r: ItemRowView)
    ensures
        with_videos(base, videos).contains(r) <==> (videos.contains(r.video) && r
            == ItemRowView { video: r.video, ..base }),
{
    let rows = with_videos(base, videos);
    if rows.contains(r) {
        let j = choose|j: int| 0 <= j < rows.len() && rows[j] == r;
        assert(videos[j] == r.video);
    }
    if videos.contains(r.video) && r == (ItemRowView { video: r.video, ..base }) {
        let j = choose|j: int| 0 <= j < videos.len() && videos[j] == r.video;
        assert(rows[j] == r);
    }
}

/// A value is in a concatenation when it is in one of the two parts.
pub proof fn lemma_contains_add<A>(s: Seq<A>, t: Seq<A>, a: A)
    ensures
        (s + t).contains(a) <==> (s.contains(a) || t.contains(a)),
{
    let u = s + t;
    if u.contains(a) {
        let j = choose|j: int| 0 <= j < u.len() && u[j] == a;
        if j < s.len() {
            assert(s[j] == a);
        } else {
            assert(t[j - s.len()] == a);
        }
    }
    if s.contains(a) {
        let j = choose|j: int| 0 <= j < s.len() && s[j] == a;
        assert(u[j] == a);
    }
    if t.contains(a) {
        let j = choose|j: int| 0 <= j < t.len() && t[j] == a;
        assert(u[j + s.len()] == a);
    }
}

/// A value is in a sequence when it is the last or among those before.
pub proof fn lemma_contains_last<A>(s: Seq<A>, a: A)
    requires
        s.len() > 0,
    ensures
        s.contains(a) <==> (s.drop_last().contains(a) || s.last() == a),
{
    if s.contains(a) {
        let j = choose|j: int| 0 <= j < s.len() && s[j] == a;
        if j < s.len() - 1 {
            assert(s.drop_last()[j] == a);
        }
    }
    if s.drop_last().contains(a) {
        let j = choose|j: int| 0 <= j < s.drop_last().len() && s.drop_last()[j] == a;
        assert(s[j] == a);
    }
    if s.last() == a {
        assert(s[s.len() - 1] == a);
    }
}

/// The rows over image and video slots are those with one slot of each.
pub proof fn lemma_with_images(
    base: ItemRowView,
    images: Seq<Option<ImageView>>,
    videos: Seq<Option<VideoView>>,
    r: ItemRowView,
)
    ensures
        with_images(base, images, videos).contains(r) <==> (images.contains(r.image)
            && videos.contains(r.video) && r == ItemRowView {
            image: r.image,
            video: r.video,
            ..base
        }),
    decreases images.len(),
{
    if images.len() > 0 {
        lemma_with_images(base, images.drop_last(), videos, r);
        lemma_with_videos(ItemRowView { image: images.last(), ..base }, videos, r);
        lemma_contains_add(
            with_images(base, images.drop_last(), videos),
            with_videos(ItemRowView { image: images.last(), ..base }, videos),
            r,
        );
        lemma_contains_last(images, r.image);
    }
}

/// The rows over author, image and video slots are those with one slot of each.
pub proof fn lemma_with_authors(
    base: ItemRowView,
    authors: Seq<Option<AuthorView>>,
    images: Seq<Option<ImageView>>,
    videos: Seq<Option<VideoView>>,
    r: ItemRowView,
)
    ensures
        with_authors(base, authors, images, videos).contains(r) <==> (authors.contains(r.author)
            && images.contains(r.image) && videos.contains(r.video) && r == ItemRowView {
            author: r.author,
            image: r.image,
            video: r.video,
            ..base
        }),
    decreases authors.len(),
{
    if authors.len() > 0 {
        lemma_with_authors(base, authors.drop_last(), images, videos, r);
        lemma_with_images(ItemRowView { author: authors.last(), ..base }, images, videos, r);
        lemma_contains_add(
            with_authors(base, authors.drop_last(), images, videos),
            with_images(ItemRowView { author: authors.last(), ..base }, images, videos),
            r,
        );
        lemma_contains_last(authors, r.author);
    }
}

/// The rows of an item are exactly the rows that carry its columns and one slot
/// of each relation.
pub proof fn lemma_with_tags(
    base: ItemRowView,
    tags: Seq<Option<TagView>>,
    authors: Seq<Option<AuthorView>>,
    images: Seq<Option<ImageView>>,
    videos: Seq<Option<VideoView>>,
    r: ItemRowView,
)
    ensures
        with_tags(base, tags, authors, images, videos).contains(r) <==> (tags.contains(r.tag)
            && authors.contains(r.author) && images.contains(r.image) && videos.contains(r.video)
            && r.scalars == base.scalars),
    decreases tags.len(),
{
    if tags.len() > 0 {
        lemma_with_tags(base, tags.drop_last(), authors, images, videos, r);
        lemma_with_authors(ItemRowView { tag: tags.last(), ..base }, authors, images, videos, r);
        lemma_contains_add(
            with_tags(base, tags.drop_last(), authors, images, videos),
            with_authors(ItemRowView { tag: tags.last(), ..base }, authors, images, videos),
            r,
        );
        lemma_contains_last(tags, r.tag);
    }
}

/// The slots of a relation hold each attached sub-entity and never something
/// else; there is always a slot.
pub proof fn lemma_slots<A>(s: Seq<A>)
    ensures
        slots(s).len() > 0,
        forall|a: A| slots(s).contains(Some(a)) <==> s.contains(a),
{
    assert forall|a: A| slots(s).contains(Some(a)) <==> s.contains(a) by {
        if slots(s).contains(Some(a)) {
            let j = choose|j: int| 0 <= j < slots(s).len() && slots(s)[j] == Some(a);
            if s.len() > 0 {
                assert(s[j] == a);
            }
        }
        if s.contains(a) {
            let j = choose|j: int| 0 <= j < s.len() && s[j] == a;
            assert(slots(s)[j] == Some(a));
        }
    }
}

/// A row of the join belongs to one of the items.
pub proof fn lemma_joined(db: Tables, n: int, r: ItemRowView)
    requires
        0 <= n,
    ensures
        joined(db, n).contains(r) <==> exists|k: int|
            0 <= k < n && #[trigger] item_rows(db, k).contains(r),
    decreases n,
{
    if n > 0 {
        lemma_joined(db, n - 1, r);
        lemma_contains_add(joined(db, n - 1), item_rows(db, n - 1), r);
        if joined(db, n).contains(r) {
            if item_rows(db, n - 1).contains(r) {
            } else {
                let k = choose|k: int| 0 <= k < n - 1 && #[trigger] item_rows(db, k).contains(r);
                assert(item_rows(db, k).contains(r));
            }
        }
    } else {
        assert(joined(db, n) =~= Seq::empty());
    }
}

/// The rows of the item at place `k`, told by what they carry.
pub proof fn lemma_item_rows(db: Tables, k: int, r: ItemRowView)
    ensures
        item_rows(db, k).contains(r) <==> {
            &&& r.scalars == db.items[k]
            &&& slots(linked(db.tags, db.items_tags, k + 1)).contains(r.tag)
            &&& slots(linked(db.authors, db.items_authors, k + 1)).contains(r.author)
            &&& slots(linked(db.images, db.items_images, k + 1)).contains(r.image)
            &&& slots(linked(db.videos, db.items_videos, k + 1)).contains(r.video)
        },
{
    lemma_with_tags(
        bare_row(db.items[k]),
        slots(linked(db.tags, db.items_tags, k + 1)),
        slots(linked(db.authors, db.items_authors, k + 1)),
        slots(linked(db.images, db.items_images, k + 1)),
        slots(linked(db.videos, db.items_videos, k + 1)),
        r,
    );
}

/// The first-seen values of a sequence that goes on with repetitions of one new
/// value.
pub proof fn lemma_first_seen_run(s: Seq<i64>, t: Seq<i64>, x: i64)
    requires
        t.len() > 0,
        forall|j: int| 0 <= j < t.len() ==> t[j] == x,
        !s.contains(x),
    ensures
        first_seen(s + t) == first_seen(s).push(x),
    decreases t.len(),
{
    crate::localdb::row::lemma_first_seen(s);
    assert((s + t).drop_last() =~= s + t.drop_last());
    assert((s + t).last() == x);
    if t.len() == 1 {
        assert(s + t.drop_last() =~= s);
    } else {
        lemma_first_seen_run(s, t.drop_last(), x);
        assert(first_seen(s).push(x)[first_seen(s).len() as int] == x);
    }
}

/// The first row of the item at place `k`.
pub open spec fn first_row(db: Tables, k: int) -> ItemRowView {
    ItemRowView {
        scalars: db.items[k],
        tag: slots(linked(db.tags, db.items_tags, k + 1))[0],
        author: slots(linked(db.authors, db.items_authors, k + 1))[0],
        image: slots(linked(db.images, db.items_images, k + 1))[0],
        video: slots(linked(db.videos, db.items_videos, k + 1))[0],
    }
}

/// Every item has a row in the join, whatever is attached to it.
pub proof fn lemma_item_has_row(db: Tables, k: int)
    ensures
        item_rows(db, k).contains(first_row(db, k)),
        item_rows(db, k).len() > 0,
{
    let r = first_row(db, k);
    lemma_slots(linked(db.tags, db.items_tags, k + 1));
    lemma_slots(linked(db.authors, db.items_authors, k + 1));
    lemma_slots(linked(db.images, db.items_images, k + 1));
    lemma_slots(linked(db.videos, db.items_videos, k + 1));
    assert(slots(linked(db.tags, db.items_tags, k + 1)).contains(r.tag));
    assert(slots(linked(db.authors, db.items_authors, k + 1)).contains(r.author));
    assert(slots(linked(db.images, db.items_images, k + 1)).contains(r.image));
    assert(slots(linked(db.videos, db.items_videos, k + 1)).contains(r.video));
    lemma_item_rows(db, k, r);
}

/// A row of the join carries the columns of the item whose id it has.
pub proof fn lemma_row_of_item(db: Tables, r: ItemRowView)
    requires
        db.wf(),
        join(db).contains(r),
    ensures
        1 <= r.scalars.id <= db.items.len(),
        item_rows(db, r.scalars.id - 1).contains(r),
{
    lemma_joined(db, db.items.len() as int, r);
    let k = choose|k: int| 0 <= k < db.items.len() && #[trigger] item_rows(db, k).contains(r);
    lemma_item_rows(db, k, r);
    assert(db.items[k].id == k + 1);
}

/// The ids of the rows of the first `n` items, in the order in which they are
/// first seen, are 1 to `n`.
pub proof fn lemma_join_order(db: Tables, n: int)
    requires
        db.wf(),
        0 <= n <= db.items.len(),
    ensures
        first_seen(row_ids(joined(db, n))) == Seq::new(n as nat, |k: int| (k + 1) as i64),
        forall|j: int| 0 <= j < joined(db, n).len() ==> 1 <= (#[trigger] joined(db, n)[j]).scalars.id <= n,
    decreases n,
{
    if n == 0 {
        assert(joined(db, n) =~= Seq::empty());
        assert(row_ids(joined(db, n)) =~= Seq::empty());
        assert(first_seen(row_ids(joined(db, n))) =~= Seq::new(
            n as nat,
            |k: int| (k + 1) as i64,
        ));
    } else {
        lemma_join_order(db, n - 1);
        let before = joined(db, n - 1);
        let rows = item_rows(db, n - 1);
        lemma_item_has_row(db, n - 1);
        assert(db.items[n - 1].id == n);
        assert forall|j: int| 0 <= j < rows.len() implies (#[trigger] rows[j]).scalars.id == n by {
            assert(rows.contains(rows[j]));
            lemma_item_rows(db, n - 1, rows[j]);
        }
        assert(row_ids(joined(db, n)) =~= row_ids(before) + row_ids(rows));
        assert(!row_ids(before).contains(n as i64)) by {
            if row_ids(before).contains(n as i64) {
                let j = choose|j: int|
                    0 <= j < row_ids(before).len() && row_ids(before)[j] == n as i64;
                assert(before[j].scalars.id <= n - 1);
            }
        }
        lemma_first_seen_run(row_ids(before), row_ids(rows), n as i64);
        assert(first_seen(row_ids(joined(db, n))) =~= Seq::new(
            n as nat,
            |k: int| (k + 1) as i64,
        ));
        assert forall|j: int| 0 <= j < joined(db, n).len() implies 1 <= (#[trigger] joined(
            db,
            n,
        )[j]).scalars.id <= n by {
            if j < before.len() {
                assert(joined(db, n)[j] == before[j]);
            } else {
                assert(joined(db, n)[j] == rows[j - before.len()]);
            }
        }
    }
}

/// Folding the join gives back each stored item with what is attached to it:
/// the rows that the join multiplies collapse into the sets.
pub proof fn lemma_join_folds(db: Tables, k: int)
    requires
        db.wf(),
        0 <= k < db.items.len(),
    ensures
        aggregate(join(db), (k + 1) as i64) == stored_aggregate(db, k),
{
    let n = db.items.len() as int;
    let rows = join(db);
    let id = (k + 1) as i64;
    let first = first_row(db, k);
    assert(db.items[k].id == id);
    lemma_item_has_row(db, k);
    lemma_joined(db, n, first);
    assert(rows.contains(first));
    let at = choose|j: int| 0 <= j < rows.len() && rows[j] == first;
    assert(row_ids(rows)[at] == id);
    assert(row_ids(rows).contains(id));
    lemma_last_row_of(rows, id);
    let last = rows[last_row_of(rows, id)];
    assert(rows.contains(last));
    lemma_row_of_item(db, last);
    lemma_item_rows(db, k, last);
    assert forall|j: int| 0 <= j < rows.len() implies rows.contains(#[trigger] rows[j]) by {}

    assert(group_tags(rows, id) =~= linked(db.tags, db.items_tags, k + 1).to_set()) by {
        let parts = rows.map_values(|r: ItemRowView| r.tag);
        let attached = linked(db.tags, db.items_tags, k + 1);
        lemma_slots(attached);
        assert forall|a: TagView| group_tags(rows, id).contains(a) implies attached.to_set().contains(
            a,
        ) by {
            let j = choose|j: int|
                0 <= j < row_ids(rows).len() && j < parts.len() && row_ids(rows)[j] == id
                    && #[trigger] parts[j] == Some(a);
            lemma_row_of_item(db, rows[j]);
            lemma_item_rows(db, k, rows[j]);
        }
        assert forall|a: TagView| attached.to_set().contains(a) implies group_tags(
            rows,
            id,
        ).contains(a) by {
            let r = ItemRowView { tag: Some(a), ..first };
            lemma_item_rows(db, k, r);
            assert(item_rows(db, k).contains(r));
            lemma_joined(db, n, r);
            let j = choose|j: int| 0 <= j < rows.len() && rows[j] == r;
            assert(row_ids(rows)[j] == id);
            assert(parts[j] == Some(a));
        }
    }

    assert(group_authors(rows, id) =~= linked(db.authors, db.items_authors, k + 1).to_set()) by {
        let parts = rows.map_values(|r: ItemRowView| r.author);
        let attached = linked(db.authors, db.items_authors, k + 1);
        lemma_slots(attached);
        assert forall|a: AuthorView| group_authors(rows, id).contains(a) implies attached.to_set().contains(
            a,
        ) by {
            let j = choose|j: int|
                0 <= j < row_ids(rows).len() && j < parts.len() && row_ids(rows)[j] == id
                    && #[trigger] parts[j] == Some(a);
            lemma_row_of_item(db, rows[j]);
            lemma_item_rows(db, k, rows[j]);
        }
        assert forall|a: AuthorView| attached.to_set().contains(a) implies group_authors(
            rows,
            id,
        ).contains(a) by {
            let r = ItemRowView { author: Some(a), ..first };
            lemma_item_rows(db, k, r);
            assert(item_rows(db, k).contains(r));
            lemma_joined(db, n, r);
            let j = choose|j: int| 0 <= j < rows.len() && rows[j] == r;
            assert(row_ids(rows)[j] == id);
            assert(parts[j] == Some(a));
        }
    }

    assert(group_images(rows, id) =~= linked(db.images, db.items_images, k + 1).to_set()) by {
        let parts = rows.map_values(|r: ItemRowView| r.image);
        let attached = linked(db.images, db.items_images, k + 1);
        lemma_slots(attached);
        assert forall|a: ImageView| group_images(rows, id).contains(a) implies attached.to_set().contains(
            a,
        ) by {
            let j = choose|j: int|
                0 <= j < row_ids(rows).len() && j < parts.len() && row_ids(rows)[j] == id
                    && #[trigger] parts[j] == Some(a);
            lemma_row_of_item(db, rows[j]);
            lemma_item_rows(db, k, rows[j]);
        }
        assert forall|a: ImageView| attached.to_set().contains(a) implies group_images(
            rows,
            id,
        ).contains(a) by {
            let r = ItemRowView { image: Some(a), ..first };
            lemma_item_rows(db, k, r);
            assert(item_rows(db, k).contains(r));
            lemma_joined(db, n, r);
            let j = choose|j: int| 0 <= j < rows.len() && rows[j] == r;
            assert(row_ids(rows)[j] == id);
            assert(parts[j] == Some(a));
        }
    }

    assert(group_videos(rows, id) =~= linked(db.videos, db.items_videos, k + 1).to_set()) by {
        let parts = rows.map_values(|r: ItemRowView| r.video);
        let attached = linked(db.videos, db.items_videos, k + 1);
        lemma_slots(attached);
        assert forall|a: VideoView| group_videos(rows, id).contains(a) implies attached.to_set().contains(
            a,
        ) by {
            let j = choose|j: int|
                0 <= j < row_ids(rows).len() && j < parts.len() && row_ids(rows)[j] == id
                    && #[trigger] parts[j] == Some(a);
            lemma_row_of_item(db, rows[j]);
            lemma_item_rows(db, k, rows[j]);
        }
        assert forall|a: VideoView| attached.to_set().contains(a) implies group_videos(
            rows,
            id,
        ).contains(a) by {
            let r = ItemRowView { video: Some(a), ..first };
            lemma_item_rows(db, k, r);
            assert(item_rows(db, k).contains(r));
            lemma_joined(db, n, r);
            let j = choose|j: int| 0 <= j < rows.len() && rows[j] == r;
            assert(row_ids(rows)[j] == id);
            assert(parts[j] == Some(a));
        }
    }
}

/// Gathers the ids of the sub-entities attached to an item.
pub(crate) fn attached_ids(
    links: &Vec<Link>,
    item: i32,
    Ghost(items): Ghost<nat>,
    Ghost(entities): Ghost<nat>,
) -> (ids: Vec<i32>)
    requires
        crate::localdb::tables::links_wf(links@, items, entities),
    ensures
        ids@ == linked_ids(links@, item as int),
        forall|j: int| 0 <= j < ids.len() ==> 1 <= #[trigger] ids[j] <= entities,
{
    let mut ids: Vec<i32> = Vec::new();
    let n = links.len();
    let mut k: usize = 0;
    while k < n
        invariant
            k <= n,
            n == links.len(),
            crate::localdb::tables::links_wf(links@, items, entities),
            ids@ == linked_ids(links@.take(k as int), item as int),
            forall|j: int| 0 <= j < ids.len() ==> 1 <= #[trigger] ids[j] <= entities,
        decreases n - k,
    {
        proof {
            assert(links@.take(k + 1).drop_last() =~= links@.take(k as int));
        }
        if links[k].item_id == item {
            ids.push(links[k].entity_id);
        }
        k = k + 1;
    }
    proof {
        assert(links@.take(n as int) =~= links@);
    }
    ids
}

/// Lays out the slots of one relation for an item: the attached sub-entities,
/// or one null.
pub(crate) fn gather<T: Entity>(entities: &Vec<T>, ids: &Vec<i32>) -> (out: Vec<Option<T>>)
    requires
        forall|j: int| 0 <= j < ids.len() ==> 1 <= #[trigger] ids[j] <= entities.len(),
    ensures
        opt_views(out@) == slots(ids@.map_values(|id: i32| views(entities@)[id - 1])),
{
    let ghost attached = ids@.map_values(|id: i32| views(entities@)[id - 1]);
    let mut out: Vec<Option<T>> = Vec::new();
    let n = ids.len();
    if n == 0 {
        out.push(None);
        proof {
            assert(opt_views(out@) =~= slots(attached));
        }
        return out;
    }
    let mut k: usize = 0;
    while k < n
        invariant
            k <= n,
            n == ids.len(),
            n > 0,
            attached == ids@.map_values(|id: i32| views(entities@)[id - 1]),
            forall|j: int| 0 <= j < ids.len() ==> 1 <= #[trigger] ids[j] <= entities.len(),
            opt_views(out@) == slots(attached).take(k as int),
        decreases n - k,
    {
        let ghost before = out@;
        let place = (ids[k] - 1) as usize;
        out.push(Some(entities[place].copy()));
        proof {
            assert(opt_views(out@) =~= opt_views(before).push(Some(entities[place as int]@)));
            assert(slots(attached).take(k + 1) =~= slots(attached).take(k as int).push(
                Some(entities[place as int]@),
            ));
        }
        k = k + 1;
    }
    proof {
        assert(slots(attached).take(n as int) =~= slots(attached));
    }
    out
}

/// Adds the rows of an item that differ in the video only.
fn push_videos(
    out: &mut Vec<ItemRow>,
    item: &Item,
    tag: &Option<Tag>,
    author: &Option<Author>,
    image: &Option<Image>,
    videos: &Vec<Option<Video>>,
)
    ensures
        views(final(out)@) == views(old(out)@) + with_videos(
            ItemRowView {
                scalars: item.scalars(),
                tag: opt_view(*tag),
                author: opt_view(*author),
                image: opt_view(*image),
                video: None,
            },
            opt_views(videos@),
        ),
{
    let ghost base = ItemRowView {
        scalars: item.scalars(),
        tag: opt_view(*tag),
        author: opt_view(*author),
        image: opt_view(*image),
        video: None,
    };
    let ghost all = with_videos(base, opt_views(videos@));
    let n = videos.len();
    let mut k: usize = 0;
    proof {
        assert(views(out@) =~= views(old(out)@) + all.take(0));
    }
    while k < n
        invariant
            k <= n,
            n == videos.len(),
            all == with_videos(base, opt_views(videos@)),
            base == (ItemRowView {
                scalars: item.scalars(),
                tag: opt_view(*tag),
                author: opt_view(*author),
                image: opt_view(*image),
                video: None,
            }),
            views(out@) == views(old(out)@) + all.take(k as int),
        decreases n - k,
    {
        let ghost before = out@;
        let row = ItemRow::carrying(item, tag, author, image, &videos[k]);
        out.push(row);
        proof {
            assert(views(out@) =~= views(before).push(row@));
            assert(all[k as int] == row@);
            assert(views(old(out)@) + all.take(k + 1) =~= (views(old(out)@) + all.take(
                k as int,
            )).push(row@));
        }
        k = k + 1;
    }
    proof {
        assert(all.take(n as int) =~= all);
    }
}

/// Adds the rows of an item for every image slot.
fn push_images(
    out: &mut Vec<ItemRow>,
    item: &Item,
    tag: &Option<Tag>,
    author: &Option<Author>,
    images: &Vec<Option<Image>>,
    videos: &Vec<Option<Video>>,
)
    ensures
        views(final(out)@) == views(old(out)@) + with_images(
            ItemRowView {
                scalars: item.scalars(),
                tag: opt_view(*tag),
                author: opt_view(*author),
                image: None,
                video: None,
            },
            opt_views(images@),
            opt_views(videos@),
        ),
{
    let ghost base = ItemRowView {
        scalars: item.scalars(),
        tag: opt_view(*tag),
        author: opt_view(*author),
        image: None,
        video: None,
    };
    let ghost slots_i = opt_views(images@);
    let ghost slots_v = opt_views(videos@);
    let n = images.len();
    let mut k: usize = 0;
    proof {
        assert(views(out@) =~= views(old(out)@) + with_images(base, slots_i.take(0), slots_v));
    }
    while k < n
        invariant
            k <= n,
            n == images.len(),
            slots_i == opt_views(images@),
            slots_v == opt_views(videos@),
            base == (ItemRowView {
                scalars: item.scalars(),
                tag: opt_view(*tag),
                author: opt_view(*author),
                image: None,
                video: None,
            }),
            views(out@) == views(old(out)@) + with_images(base, slots_i.take(k as int), slots_v),
        decreases n - k,
    {
        let ghost before = views(out@);
        push_videos(out, item, tag, author, &images[k], videos);
        proof {
            assert(slots_i.take(k + 1).drop_last() =~= slots_i.take(k as int));
            assert(slots_i.take(k + 1).last() == opt_view(images[k as int]));
            assert(views(out@) =~= views(old(out)@) + with_images(
                base,
                slots_i.take(k + 1),
                slots_v,
            ));
        }
        k = k + 1;
    }
    proof {
        assert(slots_i.take(n as int) =~= slots_i);
    }
}

/// Adds the rows of an item for every author slot.
fn push_authors(
    out: &mut Vec<ItemRow>,
    item: &Item,
    tag: &Option<Tag>,
    authors: &Vec<Option<Author>>,
    images: &Vec<Option<Image>>,
    videos: &Vec<Option<Video>>,
)
    ensures
        views(final(out)@) == views(old(out)@) + with_authors(
            ItemRowView {
                scalars: item.scalars(),
                tag: opt_view(*tag),
                author: None,
                image: None,
                video: None,
            },
            opt_views(authors@),
            opt_views(images@),
            opt_views(videos@),
        ),
{
    let ghost base = ItemRowView {
        scalars: item.scalars(),
        tag: opt_view(*tag),
        author: None,
        image: None,
        video: None,
    };
    let ghost slots_a = opt_views(authors@);
    let ghost slots_i = opt_views(images@);
    let ghost slots_v = opt_views(videos@);
    let n = authors.len();
    let mut k: usize = 0;
    proof {
        assert(views(out@) =~= views(old(out)@) + with_authors(
            base,
            slots_a.take(0),
            slots_i,
            slots_v,
        ));
    }
    while k < n
        invariant
            k <= n,
            n == authors.len(),
            slots_a == opt_views(authors@),
            slots_i == opt_views(images@),
            slots_v == opt_views(videos@),
            base == (ItemRowView {
                scalars: item.scalars(),
                tag: opt_view(*tag),
                author: None,
                image: None,
                video: None,
            }),
            views(out@) == views(old(out)@) + with_authors(
                base,
                slots_a.take(k as int),
                slots_i,
                slots_v,
            ),
        decreases n - k,
    {
        push_images(out, item, tag, &authors[k], images, videos);
        proof {
            assert(slots_a.take(k + 1).drop_last() =~= slots_a.take(k as int));
            assert(slots_a.take(k + 1).last() == opt_view(authors[k as int]));
            assert(views(out@) =~= views(old(out)@) + with_authors(
                base,
                slots_a.take(k + 1),
                slots_i,
                slots_v,
            ));
        }
        k = k + 1;
    }
    proof {
        assert(slots_a.take(n as int) =~= slots_a);
    }
}

/// Adds the rows of an item: one for each combination of a slot of each
/// relation.
pub fn push_item_rows(
    out: &mut Vec<ItemRow>,
    item: &Item,
    tags: &Vec<Option<Tag>>,
    authors: &Vec<Option<Author>>,
    images: &Vec<Option<Image>>,
    videos: &Vec<Option<Video>>,
)
    ensures
        views(final(out)@) == views(old(out)@) + with_tags(
            bare_row(item.scalars()),
            opt_views(tags@),
            opt_views(authors@),
            opt_views(images@),
            opt_views(videos@),
        ),
{
    let ghost base = bare_row(item.scalars());
    let ghost slots_t = opt_views(tags@);
    let ghost slots_a = opt_views(authors@);
    let ghost slots_i = opt_views(images@);
    let ghost slots_v = opt_views(videos@);
    let n = tags.len();
    let mut k: usize = 0;
    proof {
        assert(views(out@) =~= views(old(out)@) + with_tags(
            base,
            slots_t.take(0),
            slots_a,
            slots_i,
            slots_v,
        ));
    }
    while k < n
        invariant
            k <= n,
            n == tags.len(),
            slots_t == opt_views(tags@),
            slots_a == opt_views(authors@),
            slots_i == opt_views(images@),
            slots_v == opt_views(videos@),
            base == bare_row(item.scalars()),
            views(out@) == views(old(out)@) + with_tags(
                base,
                slots_t.take(k as int),
                slots_a,
                slots_i,
                slots_v,
            ),
        decreases n - k,
    {
        push_authors(out, item, &tags[k], authors, images, videos);
        proof {
            assert(slots_t.take(k + 1).drop_last() =~= slots_t.take(k as int));
            assert(slots_t.take(k + 1).last() == opt_view(tags[k as int]));
            assert(views(out@) =~= views(old(out)@) + with_tags(
                base,
                slots_t.take(k + 1),
                slots_a,
                slots_i,
                slots_v,
            ));
        }
        k = k + 1;
    }
    proof {
        assert(slots_t.take(n as int) =~= slots_t);
    }
}

} // verus!
