//! Where the store, its key directory and the configuration lie, and how
//! their files are named.
//!
//! Paths are texts with `/` between their parts. Whether a path exists is
//! for the caller to find out.

use vstd::prelude::*;
use vstd::string::StrSliceExecFns;
use vstd::string::StringExecFns;
use crate::config::CONFIG_FILE_NAME;
use crate::text::chars_of;

verus! {

/// The name of the key directory below the root of the store.
pub const KEYS_DIR_NAME: &'static str = ".keys";

/// The name of the store below the home directory, where the environment
/// names no other place.
pub const PASSWORD_STORE_DEFAULT_NAME: &'static str = ".password-store";

/// The name of the recipient file of a directory.
pub const GPG_ID_FILE_NAME: &'static str = ".gpg_id";

/// `dirs::home_dir`: the home directory of the user, as the environment and
/// the password database give it. Nothing is claimed of what comes back. A
/// path that is no text counts as none.
#[verifier::external_body]
fn home_dir() -> Option<String> {
    match dirs::home_dir() {
        Some(path) => path.into_os_string().into_string().ok(),
        None => None,
    }
}

/// `dirs::config_dir`: the directory for configuration files, as the
/// environment gives it. Nothing is claimed of what comes back. A path that
/// is no text counts as none.
#[verifier::external_body]
fn config_dir() -> Option<String> {
    match dirs::config_dir() {
        Some(path) => path.into_os_string().into_string().ok(),
        None => None,
    }
}

/// The path of what is called `name` in the directory `base`.
pub open spec fn joined(base: Seq<char>, name: Seq<char>) -> Seq<char> {
    if base.len() == 0 {
        name
    } else if base.last() == '/' {
        base + name
    } else {
        base + seq!['/'] + name
    }
}

/// The path of what is called `name` in the directory `base`.
pub fn join(base: &str, name: &str) -> (path: String)
    ensures
        path@ == joined(base@, name@),
{
    let chars = chars_of(base);
    let mut path = base.to_owned();
    if chars.len() > 0 && chars[chars.len() - 1] != '/' {
        proof {
            reveal_strlit("/");
        }
        path.append("/");
    }
    path.append(name);
    path
}

/// The root of the store: the place that the environment names, else the
/// default place below the home directory.
pub open spec fn pass_dir_of(env_value: Option<Seq<char>>, home: Option<Seq<char>>) -> Option<
    Seq<char>,
> {
    match env_value {
        Some(dir) => Some(dir),
        None => match home {
            Some(home) => Some(joined(home, PASSWORD_STORE_DEFAULT_NAME@)),
            None => None,
        },
    }
}

/// The root of the store, given what the environment names and where the
/// home directory is.
pub fn pass_dir_from(env_value: Option<String>, home: Option<String>) -> (dir: Option<String>)
    ensures
        dir.deep_view() == pass_dir_of(env_value.deep_view(), home.deep_view()),
{
    match env_value {
        Some(dir) => Some(dir),
        None => match home {
            Some(home) => Some(join(home.as_str(), PASSWORD_STORE_DEFAULT_NAME)),
            None => None,
        },
    }
}

/// The root of the store, given what the environment names. Where it names
/// nothing, the store lies below the home directory; there is no root
/// where that cannot be found.
pub fn get_pass_dir(env_value: Option<String>) -> (dir: Option<String>)
    ensures
        env_value is Some ==> dir.deep_view() == env_value.deep_view(),
        env_value is None && dir is Some ==> exists|home: Seq<char>|
            dir.deep_view() == pass_dir_of(None, Some(home)),
{
    match env_value {
        Some(dir) => Some(dir),
        None => {
            let home = home_dir();
            let dir = pass_dir_from(None, home);
            proof {
                if dir is Some {
                    assert(dir.deep_view() == pass_dir_of(None, Some(home->Some_0@)));
                }
            }
            dir
        },
    }
}

/// The key directory of the store with the given root.
pub fn get_keys_dir(pass_dir: &str) -> (dir: String)
    ensures
        dir@ == joined(pass_dir@, KEYS_DIR_NAME@),
{
    join(pass_dir, KEYS_DIR_NAME)
}

/// The recipient file of a directory.
pub fn gpg_id_path(dir: &str) -> (path: String)
    ensures
        path@ == joined(dir@, GPG_ID_FILE_NAME@),
{
    join(dir, GPG_ID_FILE_NAME)
}

/// The configuration file in the given directory for configuration files.
pub fn config_file_in(dir: &str) -> (path: String)
    ensures
        path@ == joined(dir@, CONFIG_FILE_NAME@),
{
    join(dir, CONFIG_FILE_NAME)
}

/// Where the configuration file lies; nowhere where the directory for
/// configuration files cannot be found.
pub fn get_config_file_location() -> (path: Option<String>)
    ensures
        path matches Some(file) ==> exists|dir: Seq<char>| file@ == joined(dir, CONFIG_FILE_NAME@),
{
    match config_dir() {
        Some(dir) => Some(config_file_in(dir.as_str())),
        None => None,
    }
}

/// Position of the last dot of a file name; minus one where it has none.
pub open spec fn last_dot(name: Seq<char>) -> int
    decreases name.len(),
{
    if name.len() == 0 {
        -1
    } else if name.last() == '.' {
        name.len() - 1
    } else {
        last_dot(name.drop_last())
    }
}

/// A file name without its extension: the name up to its last dot. A name
/// without a dot, or with its only dot in front, is its own stem.
pub open spec fn file_stem_of(name: Seq<char>) -> Seq<char> {
    if last_dot(name) <= 0 {
        name
    } else {
        name.take(last_dot(name))
    }
}

/// A file name without its extension.
pub fn file_stem(name: &str) -> (stem: String)
    ensures
        stem@ == file_stem_of(name@),
{
    let chars = chars_of(name);
    let mut at: usize = chars.len();
    proof {
        assert(name@.take(chars.len() as int) =~= name@);
    }
    while at > 0 && chars[at - 1] != '.'
        invariant
            chars@ == name@,
            at <= chars.len(),
            last_dot(name@) == last_dot(name@.take(at as int)),
        decreases at,
    {
        proof {
            assert(name@.take(at as int).drop_last() =~= name@.take(at - 1));
        }
        at -= 1;
    }
    if at <= 1 {
        proof {
            if at == 1 {
                assert(name@.take(1).last() == '.');
            }
        }
        name.to_owned()
    } else {
        proof {
            assert(name@.take(at as int).last() == '.');
            assert(name@.subrange(0, at - 1) =~= name@.take(at - 1));
        }
        name.substring_char(0, at - 1).to_owned()
    }
}

/// The fingerprints that the files of the key directory stand for: the
/// stems of their names, in the order of the names.
pub open spec fn key_ids_of(file_names: Seq<Seq<char>>) -> Seq<Seq<char>> {
    Seq::new(file_names.len(), |i: int| file_stem_of(file_names[i]))
}

/// The fingerprints that the files of the key directory stand for.
pub fn get_key_ids(file_names: &Vec<String>) -> (keys: Vec<String>)
    ensures
        keys.deep_view() == key_ids_of(file_names.deep_view()),
{
    let mut keys: Vec<String> = Vec::new();
    let mut i: usize = 0;
    while i < file_names.len()
        invariant
            i <= file_names.len(),
            keys.deep_view() =~= key_ids_of(file_names.deep_view()).take(i as int),
        decreases file_names.len() - i,
    {
        let ghost before = keys.deep_view();
        let stem = file_stem(file_names[i].as_str());
        keys.push(stem);
        proof {
            assert(keys.deep_view() =~= before.push(stem@));
        }
        i += 1;
    }
    proof {
        assert(key_ids_of(file_names.deep_view()).take(i as int) =~= key_ids_of(
            file_names.deep_view(),
        ));
    }
    keys
}

} // verus!
