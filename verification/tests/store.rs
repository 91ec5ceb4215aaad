use readlater::localdb::row::ItemRow;
use readlater::localdb::{
    fold_rows, Author, DBError, HasImage, HasVideo, Image, Item, ItemStatus, LocalDb, Tag, Video,
};

fn get_db() -> LocalDb {
    LocalDb::new()
}

fn bare_row(id: i64, url: &str) -> ItemRow {
    ItemRow {
        id,
        pocket_id: None,
        title: format!("item {}", id),
        url: url.to_string(),
        excerpt: None,
        is_article: None,
        is_index: None,
        has_video: None,
        has_image: None,
        word_count: None,
        lang: None,
        time_to_read: None,
        top_image_url: None,
        listen_duration_estimate: None,
        status: ItemStatus::Unread,
        time_added: 0,
        time_updated: None,
        time_read: None,
        time_favorited: None,
        tag: None,
        tag_id: None,
        tag_name: None,
        author_id: None,
        author_name: None,
        author_url: None,
        img_id: None,
        img_src: None,
        img_width: None,
        img_height: None,
        img_caption: None,
        img_credit: None,
        video_id: None,
        video_src: None,
        video_width: None,
        video_height: None,
        video_kind: None,
    }
}

fn row_with(id: i64, tag: Option<(i32, &str)>, image: Option<(i32, &str)>) -> ItemRow {
    let mut row = bare_row(id, "http://example.com");
    if let Some((tag_id, slug)) = tag {
        row.tag_id = Some(tag_id);
        row.tag = Some(slug.to_string());
    }
    if let Some((img_id, src)) = image {
        row.img_id = Some(img_id);
        row.img_src = Some(src.to_string());
        row.img_width = Some(640);
        row.img_height = Some(480);
    }
    row
}

#[test]
fn test_get_items() {
    let db = get_db();
    let items = db.get_items().unwrap();
    assert!(items.is_empty());
}

#[test]
fn test_add_item() {
    let mut db = get_db();

    let result = db.add(&Item {
        tags: vec![Tag::default()],
        authors: vec![Default::default()],
        images: vec![Default::default()],
        videos: vec![Default::default()],
        ..Default::default()
    });
    assert!(result.is_ok());
    assert_eq!(result.unwrap(), 1);

    let items = db.get_items().unwrap();
    assert_eq!(items.len(), 1);

    let item = &items[0];
    assert_eq!(item.id, 1);
    assert_eq!(item.title, Item::default().title);
    assert_eq!(item.url, Item::default().url);
    assert_eq!(item.status, ItemStatus::Unread);

    assert_eq!(item.tags.len(), 1);
    assert!(item.tags.iter().any(|t| t.tag == Tag::default().tag));

    assert_eq!(item.authors.len(), 1);
    assert!(item
        .authors
        .iter()
        .any(|a| a.name == Author::default().name));

    assert_eq!(item.images.len(), 1);
    assert!(item.images.iter().any(|i| i.src == Image::default().src));

    assert_eq!(item.videos.len(), 1);
    assert!(item.videos.iter().any(|i| i.src == Video::default().src));
}

#[test]
fn test_add_image() {
    let mut db = get_db();
    let img = Image::default();
    let id = db.add_image(&img).unwrap();
    assert_eq!(id, 1);
    let id = db.add_image(&img).unwrap();
    assert_eq!(id, 1);
}

#[test]
fn test_get_images() {
    let mut db = get_db();
    let id = db.add_image(&Default::default()).unwrap();
    assert_eq!(id, 1);

    let img = Image {
        src: "https://example.com/image2.jpg".to_string(),
        ..Default::default()
    };
    let id = db.add_image(&img).unwrap();
    assert_eq!(id, 2);

    let images = db.get_images();
    assert!(images.is_ok());
    let images = images.unwrap();
    assert_eq!(images.len(), 2);
}

#[test]
fn test_link_image() {
    let mut db = get_db();
    let img_id = db.add_image(&Default::default()).unwrap();
    let item_id = db.add(&Default::default()).unwrap();
    let res = db.link_image(img_id, item_id);
    assert!(res.is_ok());

    let items = db.get_items().unwrap();
    assert_eq!(items.len(), 1);

    let item = &items[0];
    assert_eq!(item.images.len(), 1);

    let image = item.images.iter().next().unwrap();
    assert_eq!(image.id, 1);
    assert_eq!(image.src, Image::default().src);
}

#[test]
fn test_add_tag() {
    let mut db = get_db();
    let result = db.add_tag(&Default::default());
    assert!(result.is_ok());

    let tag = db.get_tag("example").unwrap();
    assert_eq!(tag.tag, "example");
    assert_eq!(result.unwrap(), tag.id);
}

#[test]
fn test_add_author() {
    let mut db = get_db();
    let result = db.add_author(&Default::default());
    assert!(result.is_ok());
    assert_eq!(result.unwrap(), 1);

    let authors = db.get_authors().unwrap();
    assert_eq!(authors.len(), 1);
    assert_eq!(authors[0].id, 1);
    assert_eq!(authors[0].name, "John Doe");
}

#[test]
fn test_add_duplicate_author() {
    let mut db = get_db();
    let result = db.add_author(&Default::default());
    assert!(result.is_ok());
    assert_eq!(result.unwrap(), 1);

    let result = db.add_author(&Default::default());
    assert!(result.is_ok());

    let authors = db.get_authors().unwrap();
    assert_eq!(authors.len(), 1);
    assert_eq!(authors[0].id, 1);
    assert_eq!(authors[0].name, "John Doe");

    assert_eq!(result.unwrap(), 1);
}

#[test]
fn test_link_authors() {
    let mut db = get_db();
    let author_id = db.add_author(&Default::default()).unwrap();
    let item_id = db.add(&Default::default()).unwrap();
    let res = db.link_authors(author_id, item_id);
    assert!(res.is_ok());

    let items = db.get_items().unwrap();
    assert_eq!(items.len(), 1);

    let item = &items[0];
    assert_eq!(item.authors.len(), 1);

    let author = item.authors.iter().next().unwrap();
    assert_eq!(author.id, 1);
    assert_eq!(author.name, "John Doe");
}

#[test]
fn test_add_video() {
    let mut db = get_db();
    let video = Video::default();
    let id = db.add_video(&video).unwrap();
    assert_eq!(id, 1);
    let id = db.add_video(&video).unwrap();
    assert_eq!(id, 1);

    let videos = db.get_videos();
    assert!(videos.is_ok());
    let videos = videos.unwrap();
    assert_eq!(videos.len(), 1);
    let video = &videos[0];
    assert_eq!(video.id, 1);
    assert_eq!(video.src, Video::default().src);
}

#[test]
fn test_link_video() {
    let mut db = get_db();
    let video_id = db.add_video(&Default::default()).unwrap();
    let item_id = db.add(&Default::default()).unwrap();
    let res = db.link_video(video_id, item_id);
    assert!(res.is_ok());

    let items = db.get_items();
    assert!(items.is_ok());
    let items = items.unwrap();
    assert_eq!(items.len(), 1);

    let item = &items[0];
    let videos = &item.videos;
    assert_eq!(videos.len(), 1);
    let video = videos.iter().next().unwrap();
    assert_eq!(video.id, 1);
    assert_eq!(video.src, Video::default().src);
}

#[test]
fn test_add_duplicate_tag() {
    let mut db = get_db();
    db.add_tag(&Default::default()).expect("add_tag failed");
    db.add_tag(&Default::default()).expect("add tag failed");

    let tags = db.get_tags().unwrap();
    assert_eq!(tags.len(), 1);
}

#[test]
fn test_link_tag() {
    let mut db = get_db();
    let tag_id = db.add_tag(&Tag::default()).unwrap();
    let item_id = db.add(&Default::default()).unwrap();
    let res = db.link_tag(tag_id, item_id);
    assert!(res.is_ok());

    let items = db.get_items().unwrap();
    assert_eq!(items.len(), 1);
    assert_eq!(items[0].tags.len(), 1);
    let tag = items[0].tags.clone().into_iter().next().unwrap();
    assert_eq!(tag.id, 1);
    assert_eq!(tag.tag, "example");
}

#[test]
fn tags_that_differ_in_case_are_one_row() {
    let mut db = get_db();
    let first = db
        .add_tag(&Tag { id: 0, tag: "Rust".to_string(), name: Some("Rust".to_string()) })
        .unwrap();
    let second = db
        .add_tag(&Tag { id: 0, tag: "rUST".to_string(), name: Some("other".to_string()) })
        .unwrap();
    assert_eq!(first, 1);
    assert_eq!(second, 1);

    let tags = db.get_tags().unwrap();
    assert_eq!(tags.len(), 1);
    assert_eq!(tags[0], Tag { id: 1, tag: "rust".to_string(), name: Some("Rust".to_string()) });
}

#[test]
fn slug_is_stored_in_lowercase() {
    let mut db = get_db();
    let id = db.add_tag(&Tag { id: 0, tag: "ÉCOLE".to_string(), name: None }).unwrap();
    let found = db.get_tag("école").unwrap();
    assert_eq!(found.id, id);
    assert_eq!(db.get_tag("ÉCOLE").unwrap_err(), DBError::RowNotFound);
}

#[test]
fn upsert_tag_takes_the_slug_as_it_is() {
    let mut db = get_db();
    assert_eq!(db.upsert_tag("Mixed".to_string(), None), Ok(1));
    assert_eq!(db.upsert_tag("mixed".to_string(), None), Ok(2));
    assert_eq!(db.upsert_tag("Mixed".to_string(), Some("again".to_string())), Ok(1));
    assert_eq!(db.get_tag("Mixed").unwrap().name, None);
}

#[test]
fn get_tag_of_unknown_slug_is_not_found() {
    let db = get_db();
    assert_eq!(db.get_tag("nothing").unwrap_err(), DBError::RowNotFound);
}

#[test]
fn authors_without_url_are_stored_anew() {
    let mut db = get_db();
    let anonymous = Author { id: 0, name: "Anonymous".to_string(), url: None };
    assert_eq!(db.add_author(&anonymous), Ok(1));
    assert_eq!(db.add_author(&anonymous), Ok(2));
    assert_eq!(db.get_authors().unwrap().len(), 2);
}

#[test]
fn authors_are_keyed_by_url_not_by_name() {
    let mut db = get_db();
    let first = Author { id: 9, name: "A".to_string(), url: Some("https://a.example".to_string()) };
    let second = Author { id: 5, name: "B".to_string(), url: Some("https://a.example".to_string()) };
    assert_eq!(db.add_author(&first), Ok(1));
    assert_eq!(db.add_author(&second), Ok(1));
    let authors = db.get_authors().unwrap();
    assert_eq!(authors.len(), 1);
    assert_eq!(authors[0], Author { id: 1, name: "A".to_string(), url: Some("https://a.example".to_string()) });
}

#[test]
fn linking_twice_leaves_one_link() {
    let mut db = get_db();
    let tag_id = db.add_tag(&Tag::default()).unwrap();
    let item_id = db.add(&Default::default()).unwrap();
    assert_eq!(db.link_tag(tag_id, item_id), Ok(()));
    assert_eq!(db.link_tag(tag_id, item_id), Ok(()));

    let rows = db.join_rows();
    assert_eq!(rows.len(), 1);
    let items = db.get_items().unwrap();
    assert_eq!(items[0].tags.len(), 1);
}

#[test]
fn linking_what_does_not_exist_is_refused() {
    let mut db = get_db();
    assert_eq!(db.link_tag(1, 1), Err(DBError::ForeignKey));
    let tag_id = db.add_tag(&Tag::default()).unwrap();
    assert_eq!(db.link_tag(tag_id, 1), Err(DBError::ForeignKey));
    let item_id = db.add(&Default::default()).unwrap();
    assert_eq!(db.link_tag(tag_id + 1, item_id), Err(DBError::ForeignKey));
    assert_eq!(db.link_tag(0, item_id), Err(DBError::ForeignKey));
    assert_eq!(db.link_image(1, item_id), Err(DBError::ForeignKey));
    assert_eq!(db.link_video(1, item_id), Err(DBError::ForeignKey));
    assert_eq!(db.link_authors(1, item_id), Err(DBError::ForeignKey));
    assert!(db.get_items().unwrap()[0].tags.is_empty());
}

#[test]
fn resubmitted_item_keeps_its_row() {
    let mut db = get_db();
    let first = Item {
        pocket_id: Some(7),
        title: "First title".to_string(),
        url: "http://example.com/first".to_string(),
        excerpt: Some("first excerpt".to_string()),
        word_count: Some(100),
        status: ItemStatus::Unread,
        time_added: 10,
        time_updated: Some(11),
        time_read: None,
        time_favorited: None,
        ..Default::default()
    };
    let second = Item {
        pocket_id: Some(7),
        title: "Second title".to_string(),
        url: "http://example.com/second".to_string(),
        excerpt: Some("second excerpt".to_string()),
        word_count: Some(200),
        status: ItemStatus::Archived,
        time_added: 20,
        time_updated: Some(21),
        time_read: Some(22),
        time_favorited: Some(23),
        ..Default::default()
    };
    assert_eq!(db.add(&first), Ok(1));
    assert_eq!(db.add(&second), Ok(1));

    let items = db.get_items().unwrap();
    assert_eq!(items.len(), 1);
    let item = &items[0];
    assert_eq!(item.id, 1);
    assert_eq!(item.pocket_id, Some(7));
    assert_eq!(item.title, "First title");
    assert_eq!(item.url, "http://example.com/first");
    assert_eq!(item.excerpt, Some("first excerpt".to_string()));
    assert_eq!(item.word_count, Some(100));
    assert_eq!(item.status, ItemStatus::Archived);
    assert_eq!(item.time_added, 20);
    assert_eq!(item.time_updated, Some(21));
    assert_eq!(item.time_read, Some(22));
    assert_eq!(item.time_favorited, Some(23));
}

#[test]
fn item_without_remote_id_is_found_by_url() {
    let mut db = get_db();
    let first = Item { title: "kept".to_string(), ..Default::default() };
    let again = Item {
        title: "ignored".to_string(),
        status: ItemStatus::Deleted,
        tags: vec![Tag::default()],
        ..Default::default()
    };
    assert_eq!(db.add(&first), Ok(1));
    assert_eq!(db.add(&again), Ok(1));
    let items = db.get_items().unwrap();
    assert_eq!(items.len(), 1);
    assert_eq!(items[0].title, "kept");
    assert_eq!(items[0].status, ItemStatus::Unread);
    assert_eq!(items[0].tags.len(), 1);
}

#[test]
fn new_remote_id_with_a_taken_url_is_refused() {
    let mut db = get_db();
    assert_eq!(db.add(&Item { pocket_id: Some(1), ..Default::default() }), Ok(1));
    assert_eq!(
        db.add(&Item { pocket_id: Some(2), ..Default::default() }),
        Err(DBError::UniqueViolation)
    );
    assert_eq!(db.get_items().unwrap().len(), 1);
}

#[test]
fn ids_follow_the_order_of_insertion() {
    let mut db = get_db();
    for n in 1..=5 {
        let item = Item {
            pocket_id: Some(100 + n as i64),
            url: format!("http://example.com/{}", n),
            ..Default::default()
        };
        assert_eq!(db.add(&item), Ok(n));
    }
    let items = db.get_items().unwrap();
    let ids: Vec<i64> = items.iter().map(|i| i.id).collect();
    assert_eq!(ids, vec![1, 2, 3, 4, 5]);
}

#[test]
fn join_multiplies_and_fold_collects() {
    let mut db = get_db();
    let item = Item {
        pocket_id: Some(7),
        tags: vec![
            Tag { id: 0, tag: "a".to_string(), name: None },
            Tag { id: 0, tag: "b".to_string(), name: None },
        ],
        images: vec![
            Image { src: "http://example.com/1.png".to_string(), ..Default::default() },
            Image { src: "http://example.com/2.png".to_string(), ..Default::default() },
            Image { src: "http://example.com/3.png".to_string(), ..Default::default() },
        ],
        ..Default::default()
    };
    assert_eq!(db.add(&item), Ok(1));

    let rows = db.join_rows();
    assert_eq!(rows.len(), 6);
    assert!(rows.iter().all(|r| r.id == 1 && r.author_id.is_none() && r.video_id.is_none()));

    let items = db.get_items().unwrap();
    assert_eq!(items.len(), 1);
    assert_eq!(items[0].tags.len(), 2);
    assert_eq!(items[0].images.len(), 3);
    assert_eq!(items[0].authors.len(), 0);
    assert_eq!(items[0].videos.len(), 0);
    let mut slugs: Vec<String> = items[0].tags.iter().map(|t| t.tag.clone()).collect();
    slugs.sort();
    assert_eq!(slugs, vec!["a".to_string(), "b".to_string()]);
    let mut image_ids: Vec<i32> = items[0].images.iter().map(|i| i.id).collect();
    image_ids.sort();
    assert_eq!(image_ids, vec![1, 2, 3]);
}

#[test]
fn join_of_items_without_relations_has_one_row_each() {
    let mut db = get_db();
    db.add(&Item { url: "http://example.com/1".to_string(), ..Default::default() }).unwrap();
    db.add(&Item { url: "http://example.com/2".to_string(), ..Default::default() }).unwrap();
    let rows = db.join_rows();
    assert_eq!(rows.len(), 2);
    assert_eq!(rows[0].id, 1);
    assert_eq!(rows[1].id, 2);
    assert!(rows.iter().all(|r| r.tag_id.is_none() && r.img_id.is_none()));
}

#[test]
fn shared_tag_shows_on_each_item() {
    let mut db = get_db();
    let tag = Tag { id: 0, tag: "shared".to_string(), name: None };
    db.add(&Item { url: "http://example.com/1".to_string(), tags: vec![tag.clone()], ..Default::default() })
        .unwrap();
    db.add(&Item { url: "http://example.com/2".to_string(), tags: vec![tag.clone()], ..Default::default() })
        .unwrap();
    assert_eq!(db.get_tags().unwrap().len(), 1);
    let items = db.get_items().unwrap();
    assert_eq!(items.len(), 2);
    let expected = Tag { id: 1, tag: "shared".to_string(), name: None };
    assert_eq!(items[0].tags, vec![expected.clone()]);
    assert_eq!(items[1].tags, vec![expected]);
}

#[test]
fn fold_of_no_rows_is_empty() {
    assert!(fold_rows(Vec::new()).is_empty());
}

#[test]
fn fold_groups_by_first_seen_id() {
    let rows = vec![
        row_with(5, Some((1, "a")), None),
        row_with(2, None, None),
        row_with(5, Some((2, "b")), None),
        row_with(9, Some((1, "a")), None),
        row_with(2, None, None),
    ];
    let items = fold_rows(rows);
    let ids: Vec<i64> = items.iter().map(|i| i.id).collect();
    assert_eq!(ids, vec![5, 2, 9]);
    assert_eq!(items[0].tags.len(), 2);
    assert_eq!(items[1].tags.len(), 0);
    assert_eq!(items[2].tags.len(), 1);
}

#[test]
fn fold_collapses_the_product_of_two_relations() {
    let mut rows = Vec::new();
    for (tag_id, slug) in [(1, "a"), (2, "b")] {
        for (img_id, src) in [(1, "x.png"), (2, "y.png"), (3, "z.png")] {
            rows.push(row_with(1, Some((tag_id, slug)), Some((img_id, src))));
        }
    }
    assert_eq!(rows.len(), 6);
    let items = fold_rows(rows);
    assert_eq!(items.len(), 1);
    assert_eq!(items[0].tags.len(), 2);
    assert_eq!(items[0].images.len(), 3);
    assert_eq!(
        items[0].images[0],
        Image {
            id: 1,
            src: "x.png".to_string(),
            width: 640,
            height: 480,
            caption: None,
            credit: None
        }
    );
}

#[test]
fn fold_takes_item_columns_from_the_last_row() {
    let mut first = bare_row(1, "http://example.com/a");
    first.title = "old".to_string();
    let mut last = bare_row(1, "http://example.com/a");
    last.title = "new".to_string();
    last.status = ItemStatus::Archived;
    last.has_video = Some(HasVideo::IsVideo);
    last.has_image = Some(HasImage::Yes);
    last.pocket_id = Some(77);
    let items = fold_rows(vec![first, last]);
    assert_eq!(items.len(), 1);
    assert_eq!(items[0].title, "new");
    assert_eq!(items[0].status, ItemStatus::Archived);
    assert_eq!(items[0].has_video, Some(HasVideo::IsVideo));
    assert_eq!(items[0].has_image, Some(HasImage::Yes));
    assert_eq!(items[0].pocket_id, Some(77));
}

#[test]
fn fold_fills_null_columns_of_a_sub_entity() {
    let mut row = bare_row(1, "http://example.com/a");
    row.tag_id = Some(3);
    row.img_id = Some(4);
    row.video_id = Some(5);
    row.author_id = Some(6);
    let items = fold_rows(vec![row]);
    assert_eq!(items[0].tags, vec![Tag { id: 3, tag: String::new(), name: None }]);
    assert_eq!(
        items[0].images,
        vec![Image { id: 4, src: String::new(), width: 0, height: 0, caption: None, credit: None }]
    );
    assert_eq!(
        items[0].videos,
        vec![Video { id: 5, src: String::new(), width: 0, height: 0, kind: None }]
    );
    assert_eq!(items[0].authors, vec![Author { id: 6, name: String::new(), url: None }]);
}

#[test]
fn fold_keeps_sub_entities_that_differ_in_id_only() {
    let rows = vec![row_with(1, Some((1, "a")), None), row_with(1, Some((2, "a")), None)];
    let items = fold_rows(rows);
    assert_eq!(items[0].tags.len(), 2);
}

#[test]
fn defaults_are_the_sample_values() {
    let item = Item::default();
    assert_eq!(item.id, 0);
    assert_eq!(item.pocket_id, None);
    assert_eq!(item.title, "Example URL");
    assert_eq!(item.url, "http://example.com");
    assert_eq!(item.status, ItemStatus::Unread);
    assert!(item.tags.is_empty());
    assert_eq!(Tag::default(), Tag { id: 0, tag: "example".to_string(), name: None });
    assert_eq!(Author::default().url, Some("https://example.com/John-Doe".to_string()));
    assert_eq!(Video::default().src, "https://www.youtube.com/watch?v=dQw4w9WgXcQ");
    assert_eq!(Image::default().caption, Some(String::new()));
}
