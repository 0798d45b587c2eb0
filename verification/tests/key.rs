use pass_provision::key::get_keys;
use pass_provision::key::Key;
use pass_provision::key::KeyRecord;
use pass_provision::key::UserIdRecord;

fn user_id(email: Option<&str>) -> UserIdRecord {
    UserIdRecord { email: email.map(|email| email.to_string()), signatures: Vec::new() }
}

fn record(emails: &[Option<&str>], fingerprint: Option<&str>, has_secret: bool) -> KeyRecord {
    KeyRecord {
        user_ids: emails.iter().map(|email| user_id(*email)).collect(),
        fingerprint: fingerprint.map(|fingerprint| fingerprint.to_string()),
        has_secret,
    }
}

fn key(fingerprint: &str) -> Key {
    Key::new("someone@localhost".to_string(), fingerprint.to_string(), false).unwrap()
}

#[test]
fn the_short_fingerprint_is_the_last_sixteen_characters() {
    let key = key("126DF511181C21E94E688C44AA8A6BE01EB30743");
    assert_eq!(key.get_short_fingerprint(), "AA8A6BE01EB30743");
    assert_eq!(key.short_fingerprint(), Some("AA8A6BE01EB30743"));
    let exact = self::key("0123456789abcdef");
    assert_eq!(exact.get_short_fingerprint(), "0123456789abcdef");
}

#[test]
fn a_fingerprint_that_is_too_short_has_no_short_form() {
    assert_eq!(key("0123456789abcde").short_fingerprint(), None);
    assert_eq!(key("").short_fingerprint(), None);
}

#[test]
fn the_pretty_fingerprint_is_grouped_in_fours() {
    assert_eq!(
        key("126DF511181C21E94E688C44AA8A6BE01EB30743").get_pretty_fingerprint(),
        "126D F511 181C 21E9 4E68 8C44 AA8A 6BE0 1EB3 0743"
    );
    assert_eq!(key("").get_pretty_fingerprint(), "");
    assert_eq!(key("abc").get_pretty_fingerprint(), "abc");
    assert_eq!(key("abcd").get_pretty_fingerprint(), "abcd");
    assert_eq!(key("abcde").get_pretty_fingerprint(), "abcd e");
    assert_eq!(key("abcdefgh").get_pretty_fingerprint(), "abcd efgh");
    assert_eq!(key("abcdefghi").get_pretty_fingerprint(), "abcd efgh i");
}

#[test]
fn the_pretty_fingerprint_keeps_every_character_in_its_place() {
    let fingerprint = "A849644DA452281D2EB637EA9FEBCD1F791BC6B9";
    let pretty = key(fingerprint).get_pretty_fingerprint();
    assert_eq!(pretty.replace(' ', ""), fingerprint);
    assert_eq!(pretty.len(), 49);
}

#[test]
fn keys_answer_for_their_parts() {
    let mut key = Key::new("a@b".to_string(), "ABCD".to_string(), false).unwrap();
    assert_eq!(key.get_identity(), "a@b");
    assert_eq!(key.get_fingerprint(), "ABCD");
    assert!(!key.has_secret_key());
    assert!(key.has_fingerprint("ABCD"));
    assert!(!key.has_fingerprint("abcd"));
    assert_eq!(key.key_file_name(), "ABCD.asc");
    key.set_has_secret_key(true);
    assert!(key.has_secret_key());
    let copy = key.clone();
    assert_eq!(copy.get_identity(), "a@b");
    assert_eq!(copy.get_fingerprint(), "ABCD");
    assert!(copy.has_secret_key());
    assert!(Key::new("".to_string(), "ABCD".to_string(), false).is_none());
}

#[test]
fn a_record_gives_the_key_of_its_last_readable_address() {
    let parsed =
        Key::parse_key(&record(&[Some("first@x"), None, Some("last@x"), None], Some("FF"), true))
            .unwrap();
    assert_eq!(parsed.get_identity(), "last@x");
    assert_eq!(parsed.get_fingerprint(), "FF");
    assert!(parsed.has_secret_key());
}

#[test]
fn a_record_without_address_or_fingerprint_gives_no_key() {
    let no_ids = Key::parse_key(&record(&[], Some("FF"), false));
    assert_eq!(no_ids.err(), Some("No userids found for key".to_string()));
    let unreadable = Key::parse_key(&record(&[None, None], Some("FF"), false));
    assert_eq!(unreadable.err(), Some("No userids found for key".to_string()));
    let empty_last = Key::parse_key(&record(&[Some("a@b"), Some("")], Some("FF"), false));
    assert_eq!(empty_last.err(), Some("No userids found for key".to_string()));
    let no_fingerprint = Key::parse_key(&record(&[Some("a@b")], None, false));
    assert_eq!(
        no_fingerprint.err(),
        Some("Unable to read key fingerprint for id: a@b".to_string())
    );
}

#[test]
fn a_listing_ends_with_its_first_bad_record() {
    let good = vec![record(&[Some("a@x")], Some("AA"), false), record(&[Some("b@x")], Some("BB"), true)];
    let keys = get_keys(&good).unwrap();
    assert_eq!(keys.len(), 2);
    assert_eq!(keys[0].get_identity(), "a@x");
    assert_eq!(keys[1].get_fingerprint(), "BB");
    assert!(get_keys(&Vec::new()).unwrap().is_empty());
    let bad = vec![
        record(&[Some("a@x")], Some("AA"), false),
        record(&[Some("b@x")], None, false),
        record(&[], Some("CC"), false),
    ];
    assert_eq!(
        get_keys(&bad).err(),
        Some("Unable to read key fingerprint for id: b@x".to_string())
    );
}
