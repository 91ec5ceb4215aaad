use readlater::codec::{decode_i32, encode_i32, Scalar};
use readlater::localdb::kv::{number_entry, text_entry};
use readlater::localdb::{DBError, KeyValue, KvConfig, KvDB};

#[test]
fn test_get_kv() {
    let db = KvDB::new();
    let kv = db.get_kv::<String>("key");
    assert!(kv.is_err());
}

#[test]
fn test_set_kv() {
    let mut db = KvDB::new();
    let kv = db.set_kv::<String>(&("key", "value").into(), 1);
    assert!(kv.is_ok());
    let kv = db.get_kv::<String>("key");
    assert!(kv.is_ok());
    assert_eq!(kv.unwrap().value, "value");
}

#[test]
fn missing_key_is_not_found() {
    let db = KvDB::new();
    assert_eq!(db.get_kv::<i32>("key").unwrap_err(), DBError::RowNotFound);
}

#[test]
fn malformed_number_is_a_parse_fault() {
    let mut db = KvDB::new();
    db.set_kv::<String>(&text_entry("key", "12x"), 1).unwrap();
    assert_eq!(db.get_kv::<i32>("key").unwrap_err(), DBError::ParseError);
    assert_eq!(db.get_kv::<String>("key").unwrap().value, "12x");
}

#[test]
fn last_write_wins() {
    let mut db = KvDB::new();
    db.set_kv(&KeyValue::new("key".to_string(), 1), 10).unwrap();
    db.set_kv(&KeyValue::new("other".to_string(), 5), 11).unwrap();
    db.set_kv(&KeyValue::new("key".to_string(), 2), 12).unwrap();
    assert_eq!(db.get_kv::<i32>("key").unwrap().value, 2);
    assert_eq!(db.get_kv::<i32>("other").unwrap().value, 5);
    assert_eq!(db.get_kv::<i32>("key").unwrap().key, "key");
}

#[test]
fn entries_from_pairs() {
    let from_owned: KeyValue<String> = ("k".to_string(), "v".to_string()).into();
    assert_eq!(from_owned.key, "k");
    assert_eq!(from_owned.value, "v");
    let from_number: KeyValue<String> = ("n", -45).into();
    assert_eq!(from_number.key, "n");
    assert_eq!(from_number.value, "-45");
    assert_eq!(number_entry("n", 30).value, "30");
}

#[test]
fn config_does_not_tell_missing_from_malformed() {
    let mut config = KvConfig::new();
    assert_eq!(config.get::<i32>("pocket_since"), None);
    config.set::<String>("pocket_since", "soon".to_string(), 1).unwrap();
    assert_eq!(config.get_pocket_since(), None);
    assert_eq!(config.get::<String>("pocket_since"), Some("soon".to_string()));
}

#[test]
fn config_keeps_cursors_and_token() {
    let mut config = KvConfig::new();
    assert_eq!(config.get_pocket_access_token(), None);
    assert_eq!(config.get_pocket_since(), None);
    assert_eq!(config.get_pocket_offset(), None);
    config.set_pocket_access_token("token-123", 1).unwrap();
    config.set_pocket_since(1738297033, 2).unwrap();
    config.set_pocket_offset(30, 3).unwrap();
    assert_eq!(config.get_pocket_access_token(), Some("token-123".to_string()));
    assert_eq!(config.get_pocket_since(), Some(1738297033));
    assert_eq!(config.get_pocket_offset(), Some(30));
    assert_eq!(config.get::<String>("pocket_offset"), Some("30".to_string()));
    config.set_pocket_offset(60, 4).unwrap();
    assert_eq!(config.get_pocket_offset(), Some(60));
}

#[test]
fn decimal_form_of_integers() {
    assert_eq!(encode_i32(0), "0");
    assert_eq!(encode_i32(7), "7");
    assert_eq!(encode_i32(-7), "-7");
    assert_eq!(encode_i32(1738297033), "1738297033");
    assert_eq!(encode_i32(i32::MAX), "2147483647");
    assert_eq!(encode_i32(i32::MIN), "-2147483648");
    assert_eq!(encode_i32(100), "100");
}

#[test]
fn reading_decimal_integers() {
    assert_eq!(decode_i32("0"), Some(0));
    assert_eq!(decode_i32("30"), Some(30));
    assert_eq!(decode_i32("+30"), Some(30));
    assert_eq!(decode_i32("-30"), Some(-30));
    assert_eq!(decode_i32("007"), Some(7));
    assert_eq!(decode_i32("-0"), Some(0));
    assert_eq!(decode_i32("2147483647"), Some(i32::MAX));
    assert_eq!(decode_i32("-2147483648"), Some(i32::MIN));
    assert_eq!(decode_i32("2147483648"), None);
    assert_eq!(decode_i32("-2147483649"), None);
    assert_eq!(decode_i32("99999999999999999999999"), None);
    assert_eq!(decode_i32("0000000000000000000000001"), Some(1));
    assert_eq!(decode_i32(""), None);
    assert_eq!(decode_i32("-"), None);
    assert_eq!(decode_i32("+"), None);
    assert_eq!(decode_i32(" 1"), None);
    assert_eq!(decode_i32("1 "), None);
    assert_eq!(decode_i32("1-"), None);
    assert_eq!(decode_i32("--1"), None);
    assert_eq!(decode_i32("٣"), None);
}

#[test]
fn decimal_agrees_with_the_standard_library() {
    for v in [0, 1, -1, 9, 10, 11, 99, 100, 12345, -12345, i32::MAX, i32::MIN, i32::MAX - 1] {
        assert_eq!(encode_i32(v), v.to_string());
        assert_eq!(decode_i32(&v.to_string()), Some(v));
    }
    for text in ["", "+", "-", "+-1", "1_000", "0x10", "1.0", "１２"] {
        assert_eq!(decode_i32(text), text.parse::<i32>().ok());
    }
}

#[test]
fn scalars_round_trip() {
    for v in [0, 45, -45, i32::MIN, i32::MAX] {
        assert_eq!(<i32 as Scalar>::decode(&v.encode()), Some(v));
    }
    let text = "any text, even 12".to_string();
    assert_eq!(<String as Scalar>::decode(&text.encode()), Some(text));
}
