//! Keys as the keyring reports them, and what is derived from a fingerprint.

pub mod folder;
pub mod gpg_id;
pub mod keyparser;
pub mod parser;
pub mod trust;

use vstd::prelude::*;
use vstd::string::StrSliceExecFns;
use vstd::string::StringExecFns;
use crate::text::str_eq;

verus! {

/// What is known of one key: who it belongs to, its fingerprint, and whether
/// the secret half is held locally.
pub struct Key {
    identity: String,
    fingerprint: String,
    has_secret_key: bool,
}

/// The mathematical content of a [`Key`].
pub ghost struct KeyView {
    pub identity: Seq<char>,
    pub fingerprint: Seq<char>,
    pub has_secret_key: bool,
}

impl View for Key {
    type V = KeyView;

    closed spec fn view(&self) -> KeyView {
        KeyView {
            identity: self.identity@,
            fingerprint: self.fingerprint@,
            has_secret_key: self.has_secret_key,
        }
    }
}

impl DeepView for Key {
    type V = KeyView;

    open spec fn deep_view(&self) -> KeyView {
        self@
    }
}

/// One signature on a user id, as the keyring reports it.
pub struct SignatureRecord {
    pub invalid: bool,
    pub expired: bool,
    pub revocation: bool,
    /// The id of the key that made the signature, where it can be read.
    pub signer_key_id: Option<String>,
}

/// The mathematical content of a [`SignatureRecord`].
pub ghost struct SignatureView {
    pub invalid: bool,
    pub expired: bool,
    pub revocation: bool,
    pub signer_key_id: Option<Seq<char>>,
}

impl View for SignatureRecord {
    type V = SignatureView;

    open spec fn view(&self) -> SignatureView {
        SignatureView {
            invalid: self.invalid,
            expired: self.expired,
            revocation: self.revocation,
            signer_key_id: self.signer_key_id.deep_view(),
        }
    }
}

impl DeepView for SignatureRecord {
    type V = SignatureView;

    open spec fn deep_view(&self) -> SignatureView {
        self@
    }
}

/// One user id of a key: its e-mail address, where it can be read, and the
/// signatures made on it.
pub struct UserIdRecord {
    pub email: Option<String>,
    pub signatures: Vec<SignatureRecord>,
}

/// The mathematical content of a [`UserIdRecord`].
pub ghost struct UserIdView {
    pub email: Option<Seq<char>>,
    pub signatures: Seq<SignatureView>,
}

impl View for UserIdRecord {
    type V = UserIdView;

    open spec fn view(&self) -> UserIdView {
        UserIdView { email: self.email.deep_view(), signatures: self.signatures.deep_view() }
    }
}

impl DeepView for UserIdRecord {
    type V = UserIdView;

    open spec fn deep_view(&self) -> UserIdView {
        self@
    }
}

/// A key as the keyring hands it out, before anything is decided about it.
pub struct KeyRecord {
    pub user_ids: Vec<UserIdRecord>,
    pub fingerprint: Option<String>,
    pub has_secret: bool,
}

/// The mathematical content of a [`KeyRecord`].
pub ghost struct KeyRecordView {
    pub user_ids: Seq<UserIdView>,
    pub fingerprint: Option<Seq<char>>,
    pub has_secret: bool,
}

impl View for KeyRecord {
    type V = KeyRecordView;

    open spec fn view(&self) -> KeyRecordView {
        KeyRecordView {
            user_ids: self.user_ids.deep_view(),
            fingerprint: self.fingerprint.deep_view(),
            has_secret: self.has_secret,
        }
    }
}

impl DeepView for KeyRecord {
    type V = KeyRecordView;

    open spec fn deep_view(&self) -> KeyRecordView {
        self@
    }
}

/// The e-mail address of the last user id that has a readable one; empty
/// where none has.
pub open spec fn last_readable_email(user_ids: Seq<UserIdView>) -> Seq<char>
    decreases user_ids.len(),
{
    if user_ids.len() == 0 {
        Seq::empty()
    } else {
        match user_ids.last().email {
            Some(email) => email,
            None => last_readable_email(user_ids.drop_last()),
        }
    }
}

/// What a keyring record amounts to: a key named after the last readable
/// e-mail address, or the reason why there is none.
pub open spec fn parsed_key(record: KeyRecordView) -> Result<KeyView, Seq<char>> {
    let identity = last_readable_email(record.user_ids);
    if identity.len() == 0 {
        Err("No userids found for key"@)
    } else {
        match record.fingerprint {
            None => Err("Unable to read key fingerprint for id: "@ + identity),
            Some(fingerprint) => Ok(
                KeyView { identity, fingerprint, has_secret_key: record.has_secret },
            ),
        }
    }
}

/// The keys of the records up to the first one that gives none, and the
/// reason given for that one.
pub open spec fn parsed_keys(records: Seq<KeyRecordView>) -> Result<Seq<KeyView>, Seq<char>>
    decreases records.len(),
{
    if records.len() == 0 {
        Ok(Seq::empty())
    } else {
        match parsed_keys(records.drop_last()) {
            Err(reason) => Err(reason),
            Ok(keys) => match parsed_key(records.last()) {
                Err(reason) => Err(reason),
                Ok(key) => Ok(keys.push(key)),
            },
        }
    }
}

/// Number of characters of a short fingerprint.
pub const SHORT_FINGERPRINT_LEN: usize = 16;

/// The last sixteen characters of a fingerprint that has that many.
pub open spec fn short_fingerprint_of(fingerprint: Seq<char>) -> Seq<char>
    recommends
        fingerprint.len() >= 16,
{
    fingerprint.subrange(fingerprint.len() - 16, fingerprint.len() as int)
}

/// Length of a fingerprint of `n` characters once it is grouped in fours.
pub open spec fn pretty_len(n: nat) -> nat {
    if n == 0 {
        0
    } else {
        (n + (n - 1) / 4) as nat
    }
}

/// A fingerprint in blocks of four characters with one space between blocks:
/// every fifth position holds the space, the others hold the characters of the
/// fingerprint in their order.
pub open spec fn pretty_fingerprint_of(fingerprint: Seq<char>) -> Seq<char> {
    Seq::new(
        pretty_len(fingerprint.len()),
        |i: int|
            if i % 5 == 4 {
                ' '
            } else {
                fingerprint[i - i / 5]
            },
    )
}

/// Grouping a fingerprint loses nothing and moves nothing: it is as long as
/// the fingerprint and the spaces between its blocks, and each character of
/// the fingerprint stands behind the spaces of the blocks before it.
pub proof fn lemma_pretty_keeps_characters(fingerprint: Seq<char>, k: int)
    requires
        0 <= k < fingerprint.len(),
    ensures
        pretty_fingerprint_of(fingerprint).len() == fingerprint.len() + (fingerprint.len() - 1) / 4,
        pretty_fingerprint_of(fingerprint)[k + k / 4] == fingerprint[k],
{
    let i = k + k / 4;
    assert(i % 5 != 4 && i - i / 5 == k) by (nonlinear_arith)
        requires
            i == k + k / 4,
            0 <= k,
    ;
}

/// The name of the file under which a key with this fingerprint is published.
pub open spec fn key_file_name_of(fingerprint: Seq<char>) -> Seq<char> {
    fingerprint + ".asc"@
}

impl Key {
    #[verifier::type_invariant]
    spec fn inv(&self) -> bool {
        self.identity@.len() > 0
    }

    /// A key from its parts; there is none without an identity.
    pub fn new(identity: String, fingerprint: String, has_secret_key: bool) -> (key: Option<Key>)
        ensures
            key is Some <==> identity@.len() > 0,
            key matches Some(k) ==> k@ == (KeyView {
                identity: identity@,
                fingerprint: fingerprint@,
                has_secret_key,
            }),
    {
        if identity.as_str().unicode_len() == 0 {
            None
        } else {
            Some(Key { identity, fingerprint, has_secret_key })
        }
    }

    /// Reads a key out of a keyring record. The identity is the e-mail address
    /// of the last user id that has one; a record without any, or without a
    /// fingerprint, gives no key.
    pub fn parse_key(record: &KeyRecord) -> (parsed: Result<Key, String>)
        ensures
            match parsed {
                Ok(key) => parsed_key(record@) == Ok::<KeyView, Seq<char>>(key@),
                Err(reason) => parsed_key(record@) == Err::<KeyView, Seq<char>>(reason@),
            },
    {
        let mut identity = String::new();
        let mut i: usize = 0;
        while i < record.user_ids.len()
            invariant
                i <= record.user_ids.len(),
                identity@ == last_readable_email(record@.user_ids.take(i as int)),
            decreases record.user_ids.len() - i,
        {
            proof {
                assert(record@.user_ids.take(i + 1).drop_last() =~= record@.user_ids.take(
                    i as int,
                ));
            }
            match &record.user_ids[i].email {
                Some(email) => {
                    identity = email.clone();
                },
                None => {},
            }
            i += 1;
        }
        proof {
            assert(record@.user_ids.take(i as int) =~= record@.user_ids);
        }
        if identity.as_str().unicode_len() == 0 {
            return Err("No userids found for key".to_owned());
        }
        match &record.fingerprint {
            None => Err("Unable to read key fingerprint for id: ".to_owned().concat(identity.as_str())),
            Some(fingerprint) => Ok(
                Key { identity, fingerprint: fingerprint.clone(), has_secret_key: record.has_secret },
            ),
        }
    }

    /// The fingerprint of the key, as the keyring gave it.
    pub fn get_fingerprint(&self) -> (fingerprint: &str)
        ensures
            fingerprint@ == self@.fingerprint,
    {
        self.fingerprint.as_str()
    }

    /// The identity that the key belongs to; it is never empty.
    pub fn get_identity(&self) -> (identity: &str)
        ensures
            identity@ == self@.identity,
            identity@.len() > 0,
    {
        proof {
            use_type_invariant(self);
        }
        self.identity.as_str()
    }

    /// Whether the secret half of the key is held.
    pub fn has_secret_key(&self) -> (held: bool)
        ensures
            held == self@.has_secret_key,
    {
        self.has_secret_key
    }

    /// Records whether the secret half of the key is held; nothing else changes.
    pub fn set_has_secret_key(&mut self, held: bool)
        ensures
            final(self)@ == (KeyView { has_secret_key: held, ..old(self)@ }),
    {
        proof {
            use_type_invariant(&*self);
        }
        self.has_secret_key = held;
    }

    /// Whether this key has the given fingerprint, compared as it stands.
    pub fn has_fingerprint(&self, fingerprint: &str) -> (same: bool)
        ensures
            same == (self@.fingerprint == fingerprint@),
    {
        str_eq(self.fingerprint.as_str(), fingerprint)
    }

    /// The last sixteen characters of the fingerprint.
    pub fn get_short_fingerprint(&self) -> (short: &str)
        requires
            self@.fingerprint.len() >= 16,
        ensures
            short@ == short_fingerprint_of(self@.fingerprint),
    {
        let fingerprint = self.fingerprint.as_str();
        let fingerprint_len = fingerprint.unicode_len();
        let start_index = fingerprint_len - SHORT_FINGERPRINT_LEN;
        fingerprint.substring_char(start_index, fingerprint_len)
    }

    /// The short fingerprint, where the fingerprint is long enough to have one.
    pub fn short_fingerprint(&self) -> (short: Option<&str>)
        ensures
            short is Some <==> self@.fingerprint.len() >= 16,
            short matches Some(s) ==> s@ == short_fingerprint_of(self@.fingerprint),
    {
        if self.fingerprint.as_str().unicode_len() >= SHORT_FINGERPRINT_LEN {
            Some(self.get_short_fingerprint())
        } else {
            None
        }
    }

    /// The fingerprint in blocks of four, for a person to compare by eye.
    pub fn get_pretty_fingerprint(&self) -> (pretty: String)
        ensures
            pretty@ == pretty_fingerprint_of(self@.fingerprint),
    {
        let fingerprint = self.fingerprint.as_str();
        let fingerprint_len = fingerprint.unicode_len();
        let mut pretty = String::new();
        let mut start: usize = 0;
        let ghost goal = pretty_fingerprint_of(fingerprint@);
        while start < fingerprint_len
            invariant
                fingerprint@ == self@.fingerprint,
                fingerprint_len == fingerprint@.len(),
                goal == pretty_fingerprint_of(fingerprint@),
                start <= fingerprint_len,
                start % 4 == 0 || start == fingerprint_len,
                start < fingerprint_len ==> pretty@ == goal.take(start + start / 4),
                start == fingerprint_len ==> pretty@ == goal,
            decreases fingerprint_len - start,
        {
            let end = if fingerprint_len - start > 4 {
                start + 4
            } else {
                fingerprint_len
            };
            pretty.append(fingerprint.substring_char(start, end));
            if end != fingerprint_len {
                pretty.append(" ");
                proof {
                    reveal_strlit(" ");
                    assert(pretty@ =~= goal.take(end + end / 4));
                }
            } else {
                proof {
                    assert(pretty@ =~= goal);
                }
            }
            start = end;
        }
        proof {
            if fingerprint_len == 0 {
                assert(pretty@ =~= goal);
            }
        }
        pretty
    }

    /// The name of the file that publishes this key.
    pub fn key_file_name(&self) -> (name: String)
        ensures
            name@ == key_file_name_of(self@.fingerprint),
    {
        self.fingerprint.clone().concat(".asc")
    }
}

impl Clone for Key {
    fn clone(&self) -> (copy: Key)
        ensures
            copy@ == self@,
    {
        proof {
            use_type_invariant(self);
        }
        Key {
            identity: self.identity.clone(),
            fingerprint: self.fingerprint.clone(),
            has_secret_key: self.has_secret_key,
        }
    }
}

/// Reads the keys out of the records of a keyring listing, in their order.
/// The first record that gives no key ends the listing with its reason.
pub fn get_keys(records: &Vec<KeyRecord>) -> (listed: Result<Vec<Key>, String>)
    ensures
        match listed {
            Ok(keys) => parsed_keys(records.deep_view()) == Ok::<Seq<KeyView>, Seq<char>>(
                keys.deep_view(),
            ),
            Err(reason) => parsed_keys(records.deep_view()) == Err::<Seq<KeyView>, Seq<char>>(
                reason@,
            ),
        },
{
    let mut keys: Vec<Key> = Vec::new();
    let mut i: usize = 0;
    proof {
        assert(keys.deep_view() =~= Seq::<KeyView>::empty());
    }
    while i < records.len()
        invariant
            i <= records.len(),
            parsed_keys(records.deep_view().take(i as int)) == Ok::<Seq<KeyView>, Seq<char>>(
                keys.deep_view(),
            ),
        decreases records.len() - i,
    {
        proof {
            assert(records.deep_view().take(i + 1).drop_last() =~= records.deep_view().take(
                i as int,
            ));
        }
        match Key::parse_key(&records[i]) {
            Err(reason) => {
                proof {
                    lemma_parsed_keys_fail(records.deep_view(), i as int);
                }
                return Err(reason);
            },
            Ok(key) => {
                let ghost before = keys.deep_view();
                keys.push(key);
                proof {
                    assert(keys.deep_view() =~= before.push(key@));
                }
            },
        }
        i += 1;
    }
    proof {
        assert(records.deep_view().take(i as int) =~= records.deep_view());
    }
    Ok(keys)
}

/// Once a prefix of the records fails, the whole listing fails the same way.
proof fn lemma_parsed_keys_fail(records: Seq<KeyRecordView>, i: int)
    requires
        0 <= i < records.len(),
        parsed_keys(records.take(i)) is Ok,
        parsed_key(records[i]) is Err,
    ensures
        parsed_keys(records) == Err::<Seq<KeyView>, Seq<char>>(parsed_key(records[i])->Err_0),
    decreases records.len(),
{
    if i == records.len() - 1 {
        assert(records.drop_last() =~= records.take(i));
    } else {
        assert(records.drop_last().take(i) =~= records.take(i));
        lemma_parsed_keys_fail(records.drop_last(), i);
    }
}

} // verus!
