use readlater::codec::{decode_i64, decode_u64, encode_i64, encode_u64};
use readlater::localdb::kv::Entry;
use readlater::localdb::{
    Author, HasImage, HasVideo, Item, ItemStatus, KeyValue, KvDB, LocalDb, Tag,
};
use readlater::native_host::manifest_path;
use readlater::pocket::modify::{archive_actions, Action, ModifyItem};
use readlater::proto_handler::{desktop_entry, desktop_file_name, mime_type};
use readlater::util::der::{bool_from_number, from_string, opt_from_string, WireError};
use readlater::util::ser::{
    ser_as_str, ser_opt_as_str, serialize_option_bool_as_int, serialize_vec_as_comma_separated,
};

#[test]
fn flags_written_as_numbers() {
    assert_eq!(bool_from_number(0), Ok(false));
    assert_eq!(bool_from_number(1), Ok(true));
    assert_eq!(bool_from_number(2), Err(WireError::NotAFlag(2)));
    assert_eq!(bool_from_number(-1), Err(WireError::NotAFlag(-1)));
}

#[test]
fn values_written_as_text() {
    assert_eq!(from_string::<i32>("1738297033"), Ok(1738297033));
    assert_eq!(from_string::<i64>("3000000000"), Ok(3000000000));
    assert_eq!(from_string::<u64>("18446744073709551615"), Ok(u64::MAX));
    assert_eq!(from_string::<i32>("3000000000"), Err(WireError::NotAValue));
    assert_eq!(from_string::<u64>("-1"), Err(WireError::NotAValue));
    assert_eq!(from_string::<i32>("abc"), Err(WireError::NotAValue));
    assert_eq!(from_string::<String>("abc"), Ok("abc".to_string()));
    assert_eq!(opt_from_string::<i32>("45"), Some(45));
    assert_eq!(opt_from_string::<i32>(""), None);
    assert_eq!(opt_from_string::<i32>("4 5"), None);
}

#[test]
fn wide_integers_in_decimal() {
    assert_eq!(encode_i64(i64::MIN), "-9223372036854775808");
    assert_eq!(encode_i64(i64::MAX), "9223372036854775807");
    assert_eq!(encode_u64(u64::MAX), "18446744073709551615");
    assert_eq!(encode_u64(0), "0");
    assert_eq!(decode_i64("-9223372036854775808"), Some(i64::MIN));
    assert_eq!(decode_i64("9223372036854775807"), Some(i64::MAX));
    assert_eq!(decode_i64("9223372036854775808"), None);
    assert_eq!(decode_u64("18446744073709551615"), Some(u64::MAX));
    assert_eq!(decode_u64("18446744073709551616"), None);
    assert_eq!(decode_u64("-0"), Some(0));
    assert_eq!(decode_u64("-1"), None);
    assert_eq!(decode_i64("18446744073709551617"), None);
    assert_eq!(decode_i64("-18446744073709551617"), None);
}

#[test]
fn values_for_the_wire() {
    assert_eq!(serialize_option_bool_as_int(&Some(true)), 1);
    assert_eq!(serialize_option_bool_as_int(&Some(false)), 0);
    assert_eq!(serialize_option_bool_as_int(&None), 0);
    assert_eq!(ser_opt_as_str(&Some(1738297033)), "1738297033");
    assert_eq!(ser_opt_as_str(&Some(-1)), "-1");
    assert_eq!(ser_opt_as_str(&None), "null");
    assert_eq!(ser_as_str(30), "30");
}

#[test]
fn lists_separated_by_commas() {
    assert_eq!(serialize_vec_as_comma_separated(&vec![]), "");
    assert_eq!(serialize_vec_as_comma_separated(&vec!["a".to_string()]), "a");
    assert_eq!(
        serialize_vec_as_comma_separated(&vec!["tag1".to_string(), "tag2".to_string()]),
        "tag1,tag2"
    );
    assert_eq!(
        serialize_vec_as_comma_separated(&vec![String::new(), "b".to_string(), String::new()]),
        ",b,"
    );
    let list = vec!["x y".to_string(), "é".to_string(), "z".to_string()];
    assert_eq!(serialize_vec_as_comma_separated(&list), list.join(","));
}

#[test]
fn archive_changes_for_items() {
    assert!(archive_actions(&vec![]).is_empty());
    assert_eq!(
        archive_actions(&vec![3, 1, 3]),
        vec![
            ModifyItem::new(Action::Archive, 3),
            ModifyItem::new(Action::Archive, 1),
            ModifyItem::new(Action::Archive, 3)
        ]
    );
}

#[test]
fn codes_of_stored_enums() {
    for status in [ItemStatus::Unread, ItemStatus::Archived, ItemStatus::Deleted] {
        assert_eq!(ItemStatus::from_code(status.code()), Some(status));
    }
    assert_eq!(ItemStatus::Unread.code(), 0);
    assert_eq!(ItemStatus::Archived.code(), 1);
    assert_eq!(ItemStatus::Deleted.code(), 2);
    assert_eq!(ItemStatus::from_code(3), None);
    assert_eq!(ItemStatus::from_code(-1), None);
    assert_eq!(HasVideo::IsVideo.code(), 2);
    assert_eq!(HasVideo::from_code(1), Some(HasVideo::Yes));
    assert_eq!(HasVideo::from_code(7), None);
    assert_eq!(HasImage::No.code(), 0);
    assert_eq!(HasImage::from_code(2), Some(HasImage::IsImage));
    assert_eq!(HasImage::from_code(i32::MIN), None);
}

#[test]
fn entries_of_the_cursor_store() {
    let mut db = KvDB::new();
    assert!(db.entries().is_empty());
    db.set_kv(&KeyValue::new("a".to_string(), 1), 10).unwrap();
    db.set_kv(&KeyValue::new("b".to_string(), 2), 11).unwrap();
    db.set_kv(&KeyValue::new("a".to_string(), 3), 12).unwrap();
    let mut entries: Vec<(String, String, i64)> = db
        .entries()
        .into_iter()
        .map(|Entry { key, value, updated_at }| (key, value, updated_at))
        .collect();
    entries.sort();
    assert_eq!(
        entries,
        vec![("a".to_string(), "3".to_string(), 12), ("b".to_string(), "2".to_string(), 11)]
    );
}

#[test]
fn texts_of_the_installation() {
    assert_eq!(
        manifest_path("/home/me", "readlater"),
        "/home/me/.mozilla/native-messaging-hosts/readlater.json"
    );
    assert_eq!(desktop_file_name("readlater"), "readlater-url-handler.desktop");
    assert_eq!(mime_type("readlater"), "x-scheme-handler/readlater");
    assert_eq!(
        desktop_entry("/usr/bin/readlater", "readlater"),
        "[Desktop Entry]\nType=Application\nName=readlater URL Handler\nExec=/usr/bin/readlater handle --url %u\nStartupNotify=false\nMimeType=x-scheme-handler/readlater;"
    );
}

#[test]
fn submitting_an_item_again_changes_nothing() {
    let mut db = LocalDb::new();
    let item = Item {
        pocket_id: Some(7),
        tags: vec![
            Tag { id: 0, tag: "A".to_string(), name: None },
            Tag { id: 0, tag: "a".to_string(), name: None },
            Tag { id: 0, tag: "b".to_string(), name: None },
        ],
        authors: vec![Author::default()],
        images: vec![Default::default()],
        videos: vec![Default::default()],
        ..Default::default()
    };
    assert_eq!(db.add(&item), Ok(1));
    let rows = db.join_rows().len();
    let tags = db.get_tags().unwrap();
    assert_eq!(db.add(&item), Ok(1));
    assert_eq!(db.join_rows().len(), rows);
    assert_eq!(db.get_tags().unwrap(), tags);
    assert_eq!(db.get_authors().unwrap().len(), 1);
    assert_eq!(db.get_images().unwrap().len(), 1);
    assert_eq!(db.get_videos().unwrap().len(), 1);
    let items = db.get_items().unwrap();
    assert_eq!(items.len(), 1);
    assert_eq!(items[0].tags.len(), 2);
}

#[test]
fn author_without_url_is_attached_anew_each_time() {
    let mut db = LocalDb::new();
    let item = Item {
        pocket_id: Some(7),
        authors: vec![Author { id: 0, name: "Anonymous".to_string(), url: None }],
        ..Default::default()
    };
    assert_eq!(db.add(&item), Ok(1));
    assert_eq!(db.add(&item), Ok(1));
    assert_eq!(db.get_authors().unwrap().len(), 2);
    assert_eq!(db.get_items().unwrap()[0].authors.len(), 2);
}

#[test]
fn clone_of_an_item_holds_the_same() {
    let item = Item {
        pocket_id: Some(7),
        tags: vec![Tag::default()],
        authors: vec![Author::default()],
        ..Default::default()
    };
    let copy = item.clone();
    assert_eq!(copy.pocket_id, Some(7));
    assert_eq!(copy.title, item.title);
    assert_eq!(copy.tags, item.tags);
    assert_eq!(copy.authors, item.authors);
    assert!(copy.images.is_empty());
}
