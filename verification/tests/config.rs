use pass_provision::config::Config;
use pass_provision::config::ConfigError;
use pass_provision::config::CONFIG_FILE_NAME;
use pass_provision::config::DEFAULT_KEY_KEY;

fn error_of(contents: &str) -> Option<ConfigError> {
    Config::parse_config(contents).err()
}

#[test]
fn the_configuration_holds_the_default_key() {
    let conf = Config::new("126DF511181C21E94E688C44AA8A6BE01EB30743".to_string());
    assert_eq!(conf.get_default_key(), "126DF511181C21E94E688C44AA8A6BE01EB30743");
    assert_eq!(DEFAULT_KEY_KEY, "default-key");
    assert_eq!(CONFIG_FILE_NAME, "pass-provision.conf");
}

#[test]
fn the_configuration_is_read_out_of_its_document() {
    let conf = Config::parse_config("default-key = \"ABCDEF\"\n").unwrap();
    assert_eq!(conf.get_default_key(), "ABCDEF");
    let conf = Config::parse_config("other = 1\ndefault-key = 'q'\n[table]\nx = \"y\"\n").unwrap();
    assert_eq!(conf.get_default_key(), "q");
}

#[test]
fn a_document_without_a_usable_default_key_gives_no_configuration() {
    assert_eq!(error_of("default-key = "), Some(ConfigError::Malformed));
    assert_eq!(error_of("this is no toml"), Some(ConfigError::Malformed));
    assert_eq!(error_of(""), Some(ConfigError::MissingKey));
    assert_eq!(error_of("default_key = \"ABCDEF\"\n"), Some(ConfigError::MissingKey));
    assert_eq!(error_of("default-key = 7\n"), Some(ConfigError::NotAString));
    assert_eq!(error_of("[default-key]\nname = \"x\"\n"), Some(ConfigError::NotAString));
}

#[test]
fn the_lookup_decides_the_configuration() {
    assert_eq!(Config::from_lookup(None).err(), Some(ConfigError::MissingKey));
    assert_eq!(Config::from_lookup(Some(None)).err(), Some(ConfigError::NotAString));
    let conf = Config::from_lookup(Some(Some("FF".to_string()))).unwrap();
    assert_eq!(conf.get_default_key(), "FF");
}

#[test]
fn a_written_configuration_reads_back() {
    let conf = Config::new("A849644DA452281D2EB637EA9FEBCD1F791BC6B9".to_string());
    let contents = conf.write_config().unwrap();
    assert_eq!(contents, "default-key = \"A849644DA452281D2EB637EA9FEBCD1F791BC6B9\"\n");
    let read = Config::parse_config(&contents).unwrap();
    assert_eq!(read.get_default_key(), conf.get_default_key());
    let odd = Config::new("with \"quotes\" and \\ and \u{e9}".to_string());
    let read = Config::parse_config(&odd.write_config().unwrap()).unwrap();
    assert_eq!(read.get_default_key(), odd.get_default_key());
}
