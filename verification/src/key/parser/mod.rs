//! Readers of what the key tool lists, chosen by the version of the tool.

pub mod gpg_v2;

use vstd::prelude::*;
use crate::key::keyparser::keys_then;
use crate::key::parser::gpg_v2::ParserV2;
use crate::key::Key;
use crate::key::KeyView;

verus! {

/// What a parser makes of the block of lines that begins at `start`: the
/// key of the block, whether the listing lets it be relied on, and where the
/// next block begins; nothing at the end of the listing; or the reason why
/// the block gives no key.
pub type Listed = Result<Option<(KeyView, bool, int)>, Seq<char>>;

/// A reader of the key tool's listings.
pub trait Parser {
    /// What the parser makes of the block that begins at `start`.
    spec fn listed(&self, lines: Seq<Seq<char>>, start: int) -> Listed;

    /// The signatures that the parser finds in a signature listing: the
    /// fingerprint and the identity of each signer.
    spec fn sigs(&self, output: Seq<char>) -> Seq<(Seq<char>, Seq<char>)>;

    /// Reads the key of the block that begins at `start`.
    fn parse_key(&self, lines: &Vec<String>, start: usize) -> (key: Result<
        Option<(Key, bool, usize)>,
        String,
    >)
        requires
            start <= lines.len(),
        ensures
            match key {
                Ok(Some((key, trusted, next))) => self.listed(lines.deep_view(), start as int)
                    == Ok::<Option<(KeyView, bool, int)>, Seq<char>>(
                    Some((key@, trusted, next as int)),
                ) && start < next <= lines.len(),
                Ok(None) => self.listed(lines.deep_view(), start as int) == Ok::<
                    Option<(KeyView, bool, int)>,
                    Seq<char>,
                >(None),
                Err(reason) => self.listed(lines.deep_view(), start as int) == Err::<
                    Option<(KeyView, bool, int)>,
                    Seq<char>,
                >(reason@),
            },
    ;

    /// Reads the signatures out of a signature listing.
    fn parse_sigs(&self, output: String) -> (sigs: Vec<(String, String)>)
        ensures
            sigs.deep_view() == self.sigs(output@),
    ;
}

/// The version of the key tool that the listings are read for.
pub fn get_gpg_version() -> (version: Option<String>)
    ensures
        version.deep_view() == Some("2.1.4"@),
{
    Some("2.1.4".to_owned())
}

/// The parser for the version of the key tool. There is one for every
/// version, known or not.
pub fn get_parser() -> (parser: ParserV2)
    ensures
        parser == (ParserV2 {  }),
{
    let _gpg_version = get_gpg_version();
    ParserV2::new()
}

/// The keys of the blocks from `start` on that the listing lets be relied
/// on, up to the end of the listing or the first block that gives no key.
pub open spec fn trusted_keys_from<P: Parser>(parser: &P, lines: Seq<Seq<char>>, start: int)
    -> Result<Seq<KeyView>, Seq<char>>
    decreases lines.len() - start,
{
    match parser.listed(lines, start) {
        Err(reason) => Err(reason),
        Ok(None) => Ok(Seq::empty()),
        Ok(Some((key, trusted, next))) => {
            let found = if trusted {
                seq![key]
            } else {
                Seq::empty()
            };
            if start < next <= lines.len() {
                match trusted_keys_from(parser, lines, next) {
                    Ok(rest) => Ok(found + rest),
                    Err(reason) => Err(reason),
                }
            } else {
                Ok(found)
            }
        },
    }
}

/// Reads the keys of a listing that the listing lets be relied on.
pub fn parse_keys<P>(parser: &P, lines: &Vec<String>) -> (keys: Result<Vec<Key>, String>) where
    P: Parser,

    ensures
        match keys {
            Ok(keys) => trusted_keys_from(parser, lines.deep_view(), 0) == Ok::<
                Seq<KeyView>,
                Seq<char>,
            >(keys.deep_view()),
            Err(reason) => trusted_keys_from(parser, lines.deep_view(), 0) == Err::<
                Seq<KeyView>,
                Seq<char>,
            >(reason@),
        },
{
    let ghost all = lines.deep_view();
    let mut keys: Vec<Key> = Vec::new();
    let mut at: usize = 0;
    proof {
        assert(keys.deep_view() =~= Seq::<KeyView>::empty());
        assert(keys_then(keys.deep_view(), trusted_keys_from(parser, all, 0))
            =~= trusted_keys_from(parser, all, 0));
    }
    loop
        invariant
            all == lines.deep_view(),
            at <= lines.len(),
            trusted_keys_from(parser, all, 0) == keys_then(
                keys.deep_view(),
                trusted_keys_from(parser, all, at as int),
            ),
        decreases lines.len() - at,
    {
        match parser.parse_key(lines, at) {
            Err(reason) => {
                return Err(reason);
            },
            Ok(None) => {
                proof {
                    assert(keys.deep_view() + Seq::<KeyView>::empty() =~= keys.deep_view());
                }
                return Ok(keys);
            },
            Ok(Some((key, trusted, next))) => {
                let ghost before = keys.deep_view();
                let ghost found = if trusted {
                    seq![key@]
                } else {
                    Seq::<KeyView>::empty()
                };
                if trusted {
                    keys.push(key);
                }
                proof {
                    assert(keys.deep_view() =~= before + found);
                    match trusted_keys_from(parser, all, next as int) {
                        Ok(rest) => {
                            assert(before + (found + rest) =~= (before + found) + rest);
                        },
                        Err(_) => {},
                    }
                }
                at = next;
            },
        }
    }
}

} // verus!
