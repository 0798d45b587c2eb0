//! Reading keys out of the lines of a key listing.
//!
//! A listing holds one block of lines for each key: a lead line, a line with
//! the fingerprint, a line with the identity in angle brackets, then lines of
//! no interest up to an empty line or the end.

use vstd::prelude::*;
use vstd::string::StringExecFns;
use crate::key::Key;
use crate::key::KeyView;
use crate::text::has_prefix;
use crate::text::inner;
use crate::text::inner_of;
use crate::text::split_whitespace;
use crate::text::starts_with;
use crate::text::trim;
use crate::text::trimmed;
use crate::text::words_of;

verus! {

/// The identity that the words of a line name: what the last word that
/// begins with an angle bracket holds between its first and its last
/// character. Empty where no word begins so.
pub open spec fn bracketed(words: Seq<Seq<char>>) -> Seq<char>
    decreases words.len(),
{
    if words.len() == 0 {
        Seq::empty()
    } else if has_prefix(words.last(), "<"@) {
        inner_of(words.last())
    } else {
        bracketed(words.drop_last())
    }
}

/// The identity that a line names.
pub open spec fn identity_in(line: Seq<char>) -> Seq<char> {
    bracketed(words_of(line))
}

/// Where the block of a key ends that reaches at least to `from`: behind its
/// first empty line, or at the end of the listing.
pub open spec fn block_end(lines: Seq<Seq<char>>, from: int) -> int
    decreases lines.len() - from,
{
    if from < 0 || from >= lines.len() {
        lines.len() as int
    } else if lines[from].len() == 0 {
        from + 1
    } else {
        block_end(lines, from + 1)
    }
}

/// The identity that a line names.
pub fn find_identity(line: &str) -> (identity: String)
    ensures
        identity@ == identity_in(line@),
{
    let words = split_whitespace(line);
    let ghost all = words.deep_view();
    let mut identity = String::new();
    let mut i: usize = 0;
    while i < words.len()
        invariant
            i <= words.len(),
            all == words.deep_view(),
            identity@ == bracketed(all.take(i as int)),
        decreases words.len() - i,
    {
        proof {
            assert(all.take(i + 1).drop_last() =~= all.take(i as int));
            assert(all.take(i + 1).last() == words[i as int]@);
        }
        if starts_with(words[i].as_str(), "<") {
            identity = inner(words[i].as_str()).to_owned();
        }
        i += 1;
    }
    proof {
        assert(all.take(i as int) =~= all);
    }
    identity
}

/// Skips the rest of a block.
pub fn skip_block(lines: &Vec<String>, from: usize) -> (end: usize)
    requires
        from <= lines.len(),
    ensures
        end == block_end(lines.deep_view(), from as int),
        from <= end <= lines.len(),
        from < lines.len() ==> from < end,
{
    let mut at: usize = from;
    while at < lines.len()
        invariant
            from <= at <= lines.len(),
            block_end(lines.deep_view(), from as int) == block_end(lines.deep_view(), at as int),
        decreases lines.len() - at,
    {
        proof {
            assert(lines.deep_view()[at as int] == lines[at as int]@);
        }
        if lines[at].as_str().unicode_len() == 0 {
            return at + 1;
        }
        at += 1;
    }
    at
}

/// What a parser makes of the block of lines that begins at `start`: the
/// key of the block and where the next block begins; nothing at the end of
/// the listing; or the reason why the block gives no key.
pub type Parsed = Result<Option<(KeyView, int)>, Seq<char>>;

/// A reader of key listings.
pub trait KeyParser {
    /// What the parser makes of the block that begins at `start`.
    spec fn parsed(&self, lines: Seq<Seq<char>>, start: int) -> Parsed;

    /// Reads the key of the block that begins at `start`.
    fn parse_key(&self, lines: &Vec<String>, start: usize) -> (key: Result<
        Option<(Key, usize)>,
        String,
    >)
        requires
            start <= lines.len(),
        ensures
            match key {
                Ok(Some((key, next))) => self.parsed(lines.deep_view(), start as int) == Ok::<
                    Option<(KeyView, int)>,
                    Seq<char>,
                >(Some((key@, next as int))) && start < next <= lines.len(),
                Ok(None) => self.parsed(lines.deep_view(), start as int) == Ok::<
                    Option<(KeyView, int)>,
                    Seq<char>,
                >(None),
                Err(reason) => self.parsed(lines.deep_view(), start as int) == Err::<
                    Option<(KeyView, int)>,
                    Seq<char>,
                >(reason@),
            },
    ;
}

/// The keys of the blocks from `start` on, up to the end of the listing or
/// the first block that gives no key.
pub open spec fn keys_from<P: KeyParser>(parser: &P, lines: Seq<Seq<char>>, start: int) -> Result<
    Seq<KeyView>,
    Seq<char>,
>
    decreases lines.len() - start,
{
    match parser.parsed(lines, start) {
        Err(reason) => Err(reason),
        Ok(None) => Ok(Seq::empty()),
        Ok(Some((key, next))) => if start < next <= lines.len() {
            match keys_from(parser, lines, next) {
                Ok(rest) => Ok(seq![key] + rest),
                Err(reason) => Err(reason),
            }
        } else {
            Ok(seq![key])
        },
    }
}

/// The keys read so far, followed by those that are yet to be read.
pub open spec fn keys_then(read: Seq<KeyView>, rest: Result<Seq<KeyView>, Seq<char>>) -> Result<
    Seq<KeyView>,
    Seq<char>,
> {
    match rest {
        Ok(keys) => Ok(read + keys),
        Err(reason) => Err(reason),
    }
}

/// Reads all the keys of a listing.
pub fn parse_keys<P>(parser: &P, lines: &Vec<String>) -> (keys: Result<Vec<Key>, String>) where
    P: KeyParser,

    ensures
        match keys {
            Ok(keys) => keys_from(parser, lines.deep_view(), 0) == Ok::<Seq<KeyView>, Seq<char>>(
                keys.deep_view(),
            ),
            Err(reason) => keys_from(parser, lines.deep_view(), 0) == Err::<
                Seq<KeyView>,
                Seq<char>,
            >(reason@),
        },
{
    let ghost all = lines.deep_view();
    let mut keys: Vec<Key> = Vec::new();
    let mut at: usize = 0;
    proof {
        assert(keys.deep_view() =~= Seq::<KeyView>::empty());
        assert(keys_then(keys.deep_view(), keys_from(parser, all, 0)) =~= keys_from(
            parser,
            all,
            0,
        ));
    }
    loop
        invariant
            all == lines.deep_view(),
            at <= lines.len(),
            keys_from(parser, all, 0) == keys_then(
                keys.deep_view(),
                keys_from(parser, all, at as int),
            ),
        decreases lines.len() - at,
    {
        match parser.parse_key(lines, at) {
            Err(reason) => {
                return Err(reason);
            },
            Ok(None) => {
                proof {
                    assert(keys.deep_view() + Seq::<KeyView>::empty() =~= keys.deep_view());
                }
                return Ok(keys);
            },
            Ok(Some((key, next))) => {
                let ghost before = keys.deep_view();
                keys.push(key);
                proof {
                    assert(keys.deep_view() =~= before.push(key@));
                    match keys_from(parser, all, next as int) {
                        Ok(rest) => {
                            assert(before + (seq![key@] + rest) =~= before.push(key@) + rest);
                        },
                        Err(_) => {},
                    }
                }
                at = next;
            },
        }
    }
}

/// The reader of the listings that the second major version of the key
/// tool writes.
pub struct KeyParserV2 {}

/// What the block that begins at `start` gives: a key without secret half,
/// named by its identity line and with the fingerprint of its fingerprint
/// line.
pub open spec fn parsed_block(lines: Seq<Seq<char>>, start: int) -> Parsed {
    if start < 0 || start >= lines.len() {
        Ok(None)
    } else if start + 1 >= lines.len() {
        Err("No fingerprint line included"@)
    } else if start + 2 >= lines.len() {
        Err("No ident line included"@)
    } else if identity_in(lines[start + 2]).len() == 0 {
        Err("No identity in ident line: "@ + lines[start + 2])
    } else {
        Ok(
            Some(
                (
                    KeyView {
                        identity: identity_in(lines[start + 2]),
                        fingerprint: trimmed(lines[start + 1]),
                        has_secret_key: false,
                    },
                    block_end(lines, start + 3),
                ),
            ),
        )
    }
}

impl KeyParser for KeyParserV2 {
    open spec fn parsed(&self, lines: Seq<Seq<char>>, start: int) -> Parsed {
        parsed_block(lines, start)
    }

    fn parse_key(&self, lines: &Vec<String>, start: usize) -> (key: Result<
        Option<(Key, usize)>,
        String,
    >) {
        if start >= lines.len() {
            return Ok(None);
        }
        if lines.len() - start < 2 {
            return Err("No fingerprint line included".to_owned());
        }
        if lines.len() - start < 3 {
            return Err("No ident line included".to_owned());
        }
        proof {
            assert(lines.deep_view()[start + 1] == lines[start + 1]@);
            assert(lines.deep_view()[start + 2] == lines[start + 2]@);
        }
        let fingerprint = trim(lines[start + 1].as_str()).to_owned();
        let ident_line = lines[start + 2].as_str();
        let identity = find_identity(ident_line);
        let next = skip_block(lines, start + 3);
        match Key::new(identity, fingerprint, false) {
            None => Err("No identity in ident line: ".to_owned().concat(ident_line)),
            Some(key) => Ok(Some((key, next))),
        }
    }
}

} // verus!
