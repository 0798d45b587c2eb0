//! First-run setup: the choice of the key that signs and decrypts on the
//! operator's behalf.
//!
//! The caller lists the keys, shows the menu and has a new key made where the
//! operator asks for one; what is offered and what a choice means is decided
//! here.

use vstd::prelude::*;
use vstd::string::StringExecFns;
use crate::config::Config;
use crate::key::short_fingerprint_of;
use crate::key::Key;
use crate::key::KeyView;

verus! {

/// The fingerprint as the menu shows it: the short fingerprint where the
/// key has one, else the fingerprint whole.
pub open spec fn shown_fingerprint(fingerprint: Seq<char>) -> Seq<char> {
    if fingerprint.len() >= 16 {
        short_fingerprint_of(fingerprint)
    } else {
        fingerprint
    }
}

/// The menu line for a key: its identity in angle brackets, then its
/// fingerprint in round ones.
pub open spec fn key_label(key: KeyView) -> Seq<char> {
    "<"@ + key.identity + "> ("@ + shown_fingerprint(key.fingerprint) + ")"@
}

/// The menu lines for the keys whose secret half is held, in their order.
pub open spec fn key_labels(keys: Seq<KeyView>) -> Seq<Seq<char>>
    decreases keys.len(),
{
    if keys.len() == 0 {
        Seq::empty()
    } else if keys.last().has_secret_key {
        key_labels(keys.drop_last()).push(key_label(keys.last()))
    } else {
        key_labels(keys.drop_last())
    }
}

/// The fingerprints of the keys whose secret half is held, in their order.
pub open spec fn secret_fingerprints(keys: Seq<KeyView>) -> Seq<Seq<char>>
    decreases keys.len(),
{
    if keys.len() == 0 {
        Seq::empty()
    } else if keys.last().has_secret_key {
        secret_fingerprints(keys.drop_last()).push(keys.last().fingerprint)
    } else {
        secret_fingerprints(keys.drop_last())
    }
}

/// The menu of the first run: one option for each key whose secret half is
/// held, and a last one for making a new key.
pub struct SetupMenu {
    /// The lines of the menu.
    pub options: Vec<String>,
    /// The fingerprint behind each line but the last.
    pub fingerprints: Vec<String>,
}

/// What the operator chose at the first-run menu.
pub enum SetupChoice {
    /// The key of this configuration.
    UseKey(Config),
    /// A key that is yet to be made.
    CreateKey,
}

/// The line of a key in the first-run menu.
fn label_of(key: &Key) -> (label: String)
    ensures
        label@ == key_label(key@),
{
    let mut label = "<".to_owned();
    label.append(key.get_identity());
    label.append("> (");
    match key.short_fingerprint() {
        Some(short) => label.append(short),
        None => label.append(key.get_fingerprint()),
    }
    label.append(")");
    label
}

/// The first-run menu for the keys of the keyring.
pub fn setup_menu(keys: &Vec<Key>) -> (menu: SetupMenu)
    ensures
        menu.options.deep_view() == key_labels(keys.deep_view()).push("Create new key"@),
        menu.fingerprints.deep_view() == secret_fingerprints(keys.deep_view()),
{
    let ghost all = keys.deep_view();
    let mut options: Vec<String> = Vec::new();
    let mut fingerprints: Vec<String> = Vec::new();
    let mut i: usize = 0;
    proof {
        assert(options.deep_view() =~= key_labels(all.take(0)));
        assert(fingerprints.deep_view() =~= secret_fingerprints(all.take(0)));
    }
    while i < keys.len()
        invariant
            i <= keys.len(),
            all == keys.deep_view(),
            options.deep_view() == key_labels(all.take(i as int)),
            fingerprints.deep_view() == secret_fingerprints(all.take(i as int)),
        decreases keys.len() - i,
    {
        let key = &keys[i];
        proof {
            assert(all.take(i + 1).drop_last() =~= all.take(i as int));
            assert(all.take(i + 1).last() == key@);
        }
        if key.has_secret_key() {
            let ghost labels = options.deep_view();
            let ghost known = fingerprints.deep_view();
            let label = label_of(key);
            let fingerprint = key.get_fingerprint().to_owned();
            options.push(label);
            fingerprints.push(fingerprint);
            proof {
                assert(options.deep_view() =~= labels.push(label@));
                assert(fingerprints.deep_view() =~= known.push(fingerprint@));
            }
        }
        i += 1;
    }
    let ghost labels = options.deep_view();
    let last = "Create new key".to_owned();
    options.push(last);
    proof {
        assert(all.take(i as int) =~= all);
        assert(options.deep_view() =~= labels.push(last@));
    }
    SetupMenu { options, fingerprints }
}

/// What a choice at the first-run menu means: the key behind the line, a new
/// key for the line after the keys, nothing for a number that names no line.
pub open spec fn setup_choice_of(fingerprints: Seq<Seq<char>>, choice: usize) -> Option<
    Option<Seq<char>>,
> {
    if choice < fingerprints.len() {
        Some(Some(fingerprints[choice as int]))
    } else if choice == fingerprints.len() {
        Some(None)
    } else {
        None
    }
}

/// The view of a setup choice: the fingerprint chosen, or none for a new key.
pub open spec fn setup_choice_view(choice: Option<SetupChoice>) -> Option<Option<Seq<char>>> {
    match choice {
        Some(SetupChoice::UseKey(conf)) => Some(Some(conf@)),
        Some(SetupChoice::CreateKey) => Some(None),
        None => None,
    }
}

/// Decides what the operator chose at the first-run menu.
pub fn setup_choice(menu: &SetupMenu, choice: usize) -> (chosen: Option<SetupChoice>)
    ensures
        setup_choice_view(chosen) == setup_choice_of(menu.fingerprints.deep_view(), choice),
{
    if choice < menu.fingerprints.len() {
        Some(SetupChoice::UseKey(Config::new(menu.fingerprints[choice].clone())))
    } else if choice == menu.fingerprints.len() {
        Some(SetupChoice::CreateKey)
    } else {
        None
    }
}

/// Whether a key was made since the menu was shown: its secret half is held
/// and its fingerprint was not on the menu.
pub open spec fn is_created(key: KeyView, seen_before: Seq<Seq<char>>) -> bool {
    key.has_secret_key && !seen_before.contains(key.fingerprint)
}

/// The fingerprint of the first key of a listing that was made since the
/// menu was shown.
pub open spec fn created_key(keys: Seq<KeyView>, seen_before: Seq<Seq<char>>) -> Option<
    Seq<char>,
>
    decreases keys.len(),
{
    if keys.len() == 0 {
        None
    } else if is_created(keys[0], seen_before) {
        Some(keys[0].fingerprint)
    } else {
        created_key(keys.skip(1), seen_before)
    }
}

/// The view of a configuration that may be there.
pub open spec fn config_view(conf: Option<Config>) -> Option<Seq<char>> {
    match conf {
        Some(conf) => Some(conf@),
        None => None,
    }
}

/// Finds the key that was made since the menu was shown, and makes it the
/// default key.
pub fn find_created_key(new_keys: &Vec<Key>, seen_before: &Vec<String>) -> (conf: Option<Config>)
    ensures
        config_view(conf) == created_key(new_keys.deep_view(), seen_before.deep_view()),
{
    let ghost keys = new_keys.deep_view();
    let ghost seen = seen_before.deep_view();
    let mut i: usize = 0;
    proof {
        assert(keys.skip(0) =~= keys);
    }
    while i < new_keys.len()
        invariant
            i <= new_keys.len(),
            keys == new_keys.deep_view(),
            seen == seen_before.deep_view(),
            created_key(keys, seen) == created_key(keys.skip(i as int), seen),
        decreases new_keys.len() - i,
    {
        let key = &new_keys[i];
        proof {
            assert(keys.skip(i as int).skip(1) =~= keys.skip(i + 1));
            assert(keys.skip(i as int)[0] == key@);
        }
        if key.has_secret_key() {
            let mut known = false;
            let mut j: usize = 0;
            while j < seen_before.len()
                invariant
                    j <= seen_before.len(),
                    seen == seen_before.deep_view(),
                    known == exists|k: int| 0 <= k < j && seen[k] == key@.fingerprint,
                decreases seen_before.len() - j,
            {
                if key.has_fingerprint(seen_before[j].as_str()) {
                    proof {
                        assert(seen[j as int] == key@.fingerprint);
                    }
                    known = true;
                }
                j += 1;
            }
            if !known {
                return Some(Config::new(key.get_fingerprint().to_owned()));
            }
        }
        i += 1;
    }
    None
}

} // verus!
