use pass_provision::key::keyparser::find_identity;
use pass_provision::key::keyparser::parse_keys;
use pass_provision::key::keyparser::skip_block;
use pass_provision::key::keyparser::KeyParser;
use pass_provision::key::keyparser::KeyParserV2;
use pass_provision::key::parser::get_gpg_version;
use pass_provision::key::parser::get_parser;
use pass_provision::key::parser::gpg_v2::has_unknown_status;
use pass_provision::key::parser::gpg_v2::ParserV2;
use pass_provision::key::parser::Parser;
use pass_provision::text::split_lines;

const LISTING: &str = "pub   rsa2048 2019-01-01 [SC]\n      126DF511181C21E94E688C44AA8A6BE01EB30743\nuid           [ultimate] Signer Key <signer@pubkey.localhost>\nsub   rsa2048 2019-01-01 [E]\n\npub   rsa2048 2019-01-02 [SC]\n      A849644DA452281D2EB637EA9FEBCD1F791BC6B9\nuid           [ unknown] New Key <newkey1@localhost>\nsub   rsa2048 2019-01-02 [E]\n\npub   rsa2048 2019-01-03 [SC]\n      D54BA99B7CD92448901306F46AD31A01C5E25FA2\nuid           [  full  ] Other <old@localhost> <newkey2@localhost>\n";

#[test]
fn the_first_parser_reads_every_key() {
    let keys = parse_keys(&KeyParserV2 {}, &split_lines(LISTING)).unwrap();
    assert_eq!(keys.len(), 3);
    assert_eq!(keys[0].get_identity(), "signer@pubkey.localhost");
    assert_eq!(keys[0].get_fingerprint(), "126DF511181C21E94E688C44AA8A6BE01EB30743");
    assert!(!keys[0].has_secret_key());
    assert_eq!(keys[1].get_identity(), "newkey1@localhost");
    assert_eq!(keys[2].get_identity(), "newkey2@localhost");
    assert_eq!(keys[2].get_fingerprint(), "D54BA99B7CD92448901306F46AD31A01C5E25FA2");
    assert!(parse_keys(&KeyParserV2 {}, &Vec::new()).unwrap().is_empty());
}

#[test]
fn the_second_parser_leaves_unknown_keys_out() {
    let parser = get_parser();
    let keys = pass_provision::key::parser::parse_keys(&parser, &split_lines(LISTING)).unwrap();
    assert_eq!(keys.len(), 2);
    assert_eq!(keys[0].get_identity(), "signer@pubkey.localhost");
    assert_eq!(keys[1].get_identity(), "newkey2@localhost");
    assert_eq!(get_gpg_version(), Some("2.1.4".to_string()));
}

#[test]
fn a_block_is_read_from_its_start_to_its_empty_line() {
    let lines = split_lines(LISTING);
    let (key, next) = KeyParserV2 {}.parse_key(&lines, 0).unwrap().unwrap();
    assert_eq!(key.get_identity(), "signer@pubkey.localhost");
    assert_eq!(next, 5);
    let (key, trusted, next) = ParserV2::new().parse_key(&lines, 5).unwrap().unwrap();
    assert_eq!(key.get_fingerprint(), "A849644DA452281D2EB637EA9FEBCD1F791BC6B9");
    assert!(!trusted);
    assert_eq!(next, 10);
    let (_, trusted, next) = ParserV2::new().parse_key(&lines, 10).unwrap().unwrap();
    assert!(trusted);
    assert_eq!(next, 13);
    assert!(ParserV2::new().parse_key(&lines, 13).unwrap().is_none());
    assert!(KeyParserV2 {}.parse_key(&lines, 13).unwrap().is_none());
    assert_eq!(skip_block(&lines, 0), 5);
    assert_eq!(skip_block(&lines, 4), 5);
    assert_eq!(skip_block(&lines, 10), 13);
    assert_eq!(skip_block(&lines, 13), 13);
}

#[test]
fn a_broken_block_is_an_error() {
    let one = vec!["pub".to_string()];
    let two = vec!["pub".to_string(), " FF ".to_string()];
    let three = vec!["pub".to_string(), " FF ".to_string(), "uid nobody here".to_string()];
    let empty_id = vec!["pub".to_string(), " FF ".to_string(), "uid <x@y> <>".to_string()];
    let expected_one = Some("No fingerprint line included".to_string());
    let expected_two = Some("No ident line included".to_string());
    let expected_three = Some("No identity in ident line: uid nobody here".to_string());
    assert_eq!(parse_keys(&KeyParserV2 {}, &one).err(), expected_one);
    assert_eq!(parse_keys(&KeyParserV2 {}, &two).err(), expected_two);
    assert_eq!(parse_keys(&KeyParserV2 {}, &three).err(), expected_three);
    assert_eq!(
        parse_keys(&KeyParserV2 {}, &empty_id).err(),
        Some("No identity in ident line: uid <x@y> <>".to_string())
    );
    let parser = ParserV2::new();
    assert_eq!(pass_provision::key::parser::parse_keys(&parser, &one).err(), expected_one);
    assert_eq!(pass_provision::key::parser::parse_keys(&parser, &two).err(), expected_two);
    assert_eq!(pass_provision::key::parser::parse_keys(&parser, &three).err(), expected_three);
    let mut later = split_lines(LISTING);
    later.push("".to_string());
    later.push("pub".to_string());
    assert_eq!(parse_keys(&KeyParserV2 {}, &later).err(), expected_one);
}

#[test]
fn the_identity_stands_in_the_last_angle_brackets() {
    assert_eq!(find_identity("uid [full] A B <a@b>"), "a@b");
    assert_eq!(find_identity("uid <first@x> and <second@x>"), "second@x");
    assert_eq!(find_identity("uid nobody"), "");
    assert_eq!(find_identity("uid a<b@c>"), "");
    assert_eq!(find_identity("<"), "");
    assert_eq!(find_identity("<trailing@x>,"), "trailing@x>");
    let (key, _) = KeyParserV2 {}
        .parse_key(&vec!["pub".to_string(), "\t AB CD \r".to_string(), "<i@d>".to_string()], 0)
        .unwrap()
        .unwrap();
    assert_eq!(key.get_fingerprint(), "AB CD");
}

#[test]
fn the_trust_status_stands_in_the_first_square_brackets() {
    assert!(has_unknown_status("uid [ unknown] New Key <n@x>"));
    assert!(has_unknown_status("uid [unknown] x"));
    assert!(has_unknown_status("[unknown"));
    assert!(has_unknown_status("a[ unknown [full]"));
    assert!(!has_unknown_status("uid [ultimate] x [unknown]"));
    assert!(!has_unknown_status("uid unknown"));
    assert!(!has_unknown_status("uid [unknown x]"));
    assert!(!has_unknown_status("uid ] unknown ["));
    assert!(!has_unknown_status(""));
}

#[test]
fn signatures_are_read_out_of_their_lines() {
    let output = "uid  [full] Someone <someone@x>\nsig 3  AA8A6BE01EB30743 2019-01-01  Signer Key <signer@pubkey.localhost>\nsig\nsignature AB [self]\nrev  FFFF 2019 <r@x>\n sig 3 CC <late@x>\nsig!  BF2DF468D5540F34 <temp1@localhost>";
    let sigs = ParserV2::new().parse_sigs(output.to_string());
    assert_eq!(
        sigs,
        vec![
            ("3".to_string(), "signer@pubkey.localhost".to_string()),
            ("AB".to_string(), "self".to_string()),
            ("BF2DF468D5540F34".to_string(), "temp1@localhost".to_string()),
        ]
    );
    assert!(ParserV2::new().parse_sigs(String::new()).is_empty());
}
