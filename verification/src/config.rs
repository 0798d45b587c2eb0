//! The operator's configuration: a TOML document that names the key that
//! signs and decrypts on the operator's behalf.

use vstd::prelude::*;

verus! {

/// The key under which the document holds the fingerprint.
pub const DEFAULT_KEY_KEY: &'static str = "default-key";

/// The name of the file that holds the document.
pub const CONFIG_FILE_NAME: &'static str = "pass-provision.conf";

/// `toml::Value`, a value of a TOML document; nothing is known of what one
/// holds.
#[verifier::external_type_specification]
#[verifier::external_body]
pub struct ExTomlValue(toml::Value);

/// `toml::map::Map`, the table of a TOML document; what one holds is named
/// by [`toml_entries`].
#[verifier::external_type_specification]
#[verifier::external_body]
#[verifier::reject_recursive_types(K)]
#[verifier::reject_recursive_types(V)]
pub struct ExTomlMap<K, V>(toml::map::Map<K, V>);

/// `toml::de::Error`, the parser's reason for refusing a text; nothing is
/// known of what one holds.
#[verifier::external_type_specification]
#[verifier::external_body]
pub struct ExTomlDeError(toml::de::Error);

/// `toml::ser::Error`, the serializer's reason for failing; nothing is
/// known of what one holds.
#[verifier::external_type_specification]
#[verifier::external_body]
pub struct ExTomlSerError(toml::ser::Error);

/// What a text is as a TOML document.
pub ghost enum TomlDocument {
    /// The text is no TOML.
    Malformed,
    /// The text is TOML but holds no table of keys and values.
    NoTable,
    /// The keys of the document's table, each with its value where that is
    /// a string.
    Table(Map<Seq<char>, Option<Seq<char>>>),
}

/// The keys of a TOML table, each with its value where that is a string.
pub uninterp spec fn toml_entries(table: toml::map::Map<String, toml::Value>) -> Map<
    Seq<char>,
    Option<Seq<char>>,
>;

/// What the TOML parser makes of a text.
pub uninterp spec fn toml_document(text: Seq<char>) -> TomlDocument;

/// The text that the TOML serializer writes for a table whose values are all
/// strings; none where it fails.
pub uninterp spec fn toml_text(entries: Map<Seq<char>, Option<Seq<char>>>) -> Option<Seq<char>>;

/// The table without keys.
pub open spec fn no_entries() -> Map<Seq<char>, Option<Seq<char>>> {
    Map::empty()
}

/// Whether every value of a table is a string.
pub open spec fn all_strings(entries: Map<Seq<char>, Option<Seq<char>>>) -> bool {
    forall|key: Seq<char>| entries.contains_key(key) ==> (#[trigger] entries[key]) is Some
}

/// `str::parse::<toml::Value>`, the parser of TOML documents. The contract
/// names what it returns for a text: an error where the text is no TOML, no
/// table where the value parsed is not one, else the table of the document.
#[verifier::external_body]
fn parse_document(text: &str) -> (parsed: Result<
    Option<toml::map::Map<String, toml::Value>>,
    toml::de::Error,
>)
    ensures
        match parsed {
            Ok(Some(table)) => toml_document(text@) == TomlDocument::Table(toml_entries(table)),
            Ok(None) => toml_document(text@) is NoTable,
            Err(_) => toml_document(text@) is Malformed,
        },
{
    match text.parse::<toml::Value>() {
        Ok(toml::Value::Table(table)) => Ok(Some(table)),
        Ok(_) => Ok(None),
        Err(error) => Err(error),
    }
}

/// `toml::map::Map::get`: the value under a key, as a string where it is
/// one. The contract says that it hands out what the table holds under the
/// key, and nothing where the table lacks the key.
#[verifier::external_body]
fn table_get(table: &toml::map::Map<String, toml::Value>, key: &str) -> (value: Option<
    Option<String>,
>)
    ensures
        value.deep_view() == (if toml_entries(*table).contains_key(key@) {
            Some(toml_entries(*table)[key@])
        } else {
            None
        }),
{
    match table.get(key) {
        Some(toml::Value::String(text)) => Some(Some(text.clone())),
        Some(_) => Some(None),
        None => None,
    }
}

/// `toml::map::Map::new`: a table without keys.
#[verifier::external_body]
fn table_new() -> (table: toml::map::Map<String, toml::Value>)
    ensures
        toml_entries(table) == no_entries(),
{
    toml::map::Map::new()
}

/// `toml::map::Map::insert` with a string value: afterwards the table holds
/// the string under the key, and under every other key what it held before.
#[verifier::external_body]
fn table_insert_string(
    table: &mut toml::map::Map<String, toml::Value>,
    key: &str,
    value: &str,
)
    ensures
        toml_entries(*final(table)) == toml_entries(*old(table)).insert(key@, Some(value@)),
{
    table.insert(key.to_string(), toml::Value::String(value.to_string()));
}

/// `toml::to_string` on a table. The contract names the text that it writes
/// for a table whose values are all strings, and claims nothing of others.
#[verifier::external_body]
fn table_to_string(table: toml::map::Map<String, toml::Value>) -> (written: Result<
    String,
    toml::ser::Error,
>)
    ensures
        all_strings(toml_entries(table)) ==> match written {
            Ok(text) => toml_text(toml_entries(table)) == Some(text@),
            Err(_) => toml_text(toml_entries(table)) is None,
        },
{
    toml::to_string(&toml::Value::Table(table))
}

/// Why a text gives no configuration.
#[derive(Clone, Copy, Debug, PartialEq, Eq)]
pub enum ConfigError {
    /// The text is no TOML.
    Malformed,
    /// The document holds no keys and values.
    NoTable,
    /// The document does not name a default key.
    MissingKey,
    /// What the document holds as the default key is not a string.
    NotAString,
    /// The configuration could not be written as TOML.
    Unwritable,
}

/// The operator's configuration: the fingerprint of the key that signs and
/// decrypts on their behalf.
pub struct Config {
    default_key: String,
}

impl View for Config {
    type V = Seq<char>;

    closed spec fn view(&self) -> Seq<char> {
        self.default_key@
    }
}

/// The default key that is found under its key in a table, given what the
/// table holds there.
pub open spec fn default_key_of(lookup: Option<Option<Seq<char>>>) -> Result<
    Seq<char>,
    ConfigError,
> {
    match lookup {
        None => Err(ConfigError::MissingKey),
        Some(None) => Err(ConfigError::NotAString),
        Some(Some(fingerprint)) => Ok(fingerprint),
    }
}

/// The default key that a document names.
pub open spec fn default_key_in(document: TomlDocument) -> Result<Seq<char>, ConfigError> {
    match document {
        TomlDocument::Malformed => Err(ConfigError::Malformed),
        TomlDocument::NoTable => Err(ConfigError::NoTable),
        TomlDocument::Table(entries) => default_key_of(
            if entries.contains_key(DEFAULT_KEY_KEY@) {
                Some(entries[DEFAULT_KEY_KEY@])
            } else {
                None
            },
        ),
    }
}

/// The table that a configuration is written as.
pub open spec fn config_entries(default_key: Seq<char>) -> Map<Seq<char>, Option<Seq<char>>> {
    no_entries().insert(DEFAULT_KEY_KEY@, Some(default_key))
}

impl Config {
    /// The configuration with the given default key.
    pub fn new(def_key_fingerprint: String) -> (conf: Config)
        ensures
            conf@ == def_key_fingerprint@,
    {
        Config { default_key: def_key_fingerprint }
    }

    /// The fingerprint of the default key.
    pub fn get_default_key(&self) -> (fingerprint: &str)
        ensures
            fingerprint@ == self@,
    {
        self.default_key.as_str()
    }

    /// The configuration that a table gives, from what the table holds under
    /// the key of the default key.
    pub fn from_lookup(lookup: Option<Option<String>>) -> (found: Result<Config, ConfigError>)
        ensures
            match found {
                Ok(conf) => default_key_of(lookup.deep_view()) == Ok::<Seq<char>, ConfigError>(
                    conf@,
                ),
                Err(error) => default_key_of(lookup.deep_view()) == Err::<Seq<char>, ConfigError>(
                    error,
                ),
            },
    {
        match lookup {
            None => Err(ConfigError::MissingKey),
            Some(None) => Err(ConfigError::NotAString),
            Some(Some(fingerprint)) => Ok(Config::new(fingerprint)),
        }
    }

    /// Reads the configuration out of the contents of its file.
    pub fn parse_config(contents: &str) -> (parsed: Result<Config, ConfigError>)
        ensures
            match parsed {
                Ok(conf) => default_key_in(toml_document(contents@)) == Ok::<
                    Seq<char>,
                    ConfigError,
                >(conf@),
                Err(error) => default_key_in(toml_document(contents@)) == Err::<
                    Seq<char>,
                    ConfigError,
                >(error),
            },
    {
        match parse_document(contents) {
            Err(_) => Err(ConfigError::Malformed),
            Ok(None) => Err(ConfigError::NoTable),
            Ok(Some(table)) => Config::from_lookup(table_get(&table, DEFAULT_KEY_KEY)),
        }
    }

    /// The contents of the file that holds this configuration.
    pub fn write_config(&self) -> (written: Result<String, ConfigError>)
        ensures
            match written {
                Ok(contents) => toml_text(config_entries(self@)) == Some(contents@),
                Err(error) => error == ConfigError::Unwritable && toml_text(config_entries(self@))
                    is None,
            },
    {
        let mut table = table_new();
        table_insert_string(&mut table, DEFAULT_KEY_KEY, self.default_key.as_str());
        match table_to_string(table) {
            Ok(contents) => Ok(contents),
            Err(_) => Err(ConfigError::Unwritable),
        }
    }
}

} // verus!
