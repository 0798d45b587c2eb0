//! The reader of the listings that the second major version of the key tool
//! writes.

use vstd::prelude::*;
use vstd::string::StrSliceExecFns;
use vstd::string::StringExecFns;
use crate::key::keyparser::block_end;
use crate::key::keyparser::find_identity;
use crate::key::keyparser::identity_in;
use crate::key::keyparser::skip_block;
use crate::key::parser::Listed;
use crate::key::parser::Parser;
use crate::key::Key;
use crate::key::KeyView;
use crate::text::chars_of;
use crate::text::find_char;
use crate::text::first_index_of;
use crate::text::has_prefix;
use crate::text::inner;
use crate::text::inner_of;
use crate::text::lines_of;
use crate::text::split_lines;
use crate::text::split_whitespace;
use crate::text::starts_with;
use crate::text::str_eq;
use crate::text::trim;
use crate::text::trimmed;
use crate::text::words_of;

verus! {

/// The trust status that marks a key as not to be relied on.
pub const UNKNOWN_STATUS: &'static str = "unknown";

/// The reader of the second major version's listings.
pub struct ParserV2 {}

/// The trust status that an identity line gives: what stands behind its
/// first square bracket up to the next bracket of either kind, without the
/// white space around it. None where the line has no opening bracket.
pub open spec fn trust_status(line: Seq<char>) -> Option<Seq<char>> {
    let open = first_index_of(line, '[');
    if 0 <= open < line.len() {
        let after = line.skip(open + 1);
        let follow = after.take(first_index_of(after, '['));
        Some(trimmed(follow.take(first_index_of(follow, ']'))))
    } else {
        None
    }
}

/// Whether an identity line marks its key as not to be relied on.
pub open spec fn is_untrusted(line: Seq<char>) -> bool {
    trust_status(line) == Some(UNKNOWN_STATUS@)
}

/// Whether an identity line marks its key as not to be relied on.
pub fn has_unknown_status(line: &str) -> (untrusted: bool)
    ensures
        untrusted == is_untrusted(line@),
{
    let chars = chars_of(line);
    let len = chars.len();
    let open = find_char(&chars, 0, len, '[');
    proof {
        assert(chars@.subrange(0, len as int) =~= line@);
    }
    if open >= len {
        return false;
    }
    let next = find_char(&chars, open + 1, len, '[');
    let close = find_char(&chars, open + 1, next, ']');
    proof {
        let after = line@.skip(open + 1);
        assert(chars@.subrange(open + 1, len as int) =~= after);
        let follow = after.take(next - (open + 1));
        assert(chars@.subrange(open + 1, next as int) =~= follow);
        assert(line@.subrange(open + 1, close as int) =~= follow.take(close - (open + 1)));
    }
    let status = trim(line.substring_char(open + 1, close));
    str_eq(status, UNKNOWN_STATUS)
}

/// What the block that begins at `start` gives: a key without secret half,
/// named by its identity line and with the fingerprint of its fingerprint
/// line, and whether its identity line lets it be relied on.
pub open spec fn listed_block(lines: Seq<Seq<char>>, start: int) -> Listed {
    if start < 0 || start >= lines.len() {
        Ok(None)
    } else if start + 1 >= lines.len() {
        Err("No fingerprint line included"@)
    } else if start + 2 >= lines.len() {
        Err("No ident line included"@)
    } else if identity_in(lines[start + 2]).len() == 0 {
        Err("No identity in ident line: "@ + lines[start + 2])
    } else {
        Ok(
            Some(
                (
                    KeyView {
                        identity: identity_in(lines[start + 2]),
                        fingerprint: trimmed(lines[start + 1]),
                        has_secret_key: false,
                    },
                    !is_untrusted(lines[start + 2]),
                    block_end(lines, start + 3),
                ),
            ),
        )
    }
}

/// The signature that a line of a signature listing records: the second
/// word as the signer's fingerprint, and what the last word holds between
/// its first and its last character as the signer's identity. Only lines
/// that begin with `sig` and have two words record one.
pub open spec fn sig_of(line: Seq<char>) -> Option<(Seq<char>, Seq<char>)> {
    if has_prefix(line, "sig"@) && words_of(line).len() >= 2 {
        Some((words_of(line)[1], inner_of(words_of(line).last())))
    } else {
        None
    }
}

/// The signatures that the lines of a signature listing record.
pub open spec fn sigs_of(lines: Seq<Seq<char>>) -> Seq<(Seq<char>, Seq<char>)>
    decreases lines.len(),
{
    if lines.len() == 0 {
        Seq::empty()
    } else {
        match sig_of(lines.last()) {
            Some(sig) => sigs_of(lines.drop_last()).push(sig),
            None => sigs_of(lines.drop_last()),
        }
    }
}

impl ParserV2 {
    /// The reader of the second major version's listings.
    pub fn new() -> (parser: ParserV2)
        ensures
            parser == (ParserV2 {  }),
    {
        ParserV2 {  }
    }
}

impl Parser for ParserV2 {
    open spec fn listed(&self, lines: Seq<Seq<char>>, start: int) -> Listed {
        listed_block(lines, start)
    }

    open spec fn sigs(&self, output: Seq<char>) -> Seq<(Seq<char>, Seq<char>)> {
        sigs_of(lines_of(output))
    }

    fn parse_key(&self, lines: &Vec<String>, start: usize) -> (key: Result<
        Option<(Key, bool, usize)>,
        String,
    >) {
        if start >= lines.len() {
            return Ok(None);
        }
        if lines.len() - start < 2 {
            return Err("No fingerprint line included".to_owned());
        }
        if lines.len() - start < 3 {
            return Err("No ident line included".to_owned());
        }
        proof {
            assert(lines.deep_view()[start + 1] == lines[start + 1]@);
            assert(lines.deep_view()[start + 2] == lines[start + 2]@);
        }
        let fingerprint = trim(lines[start + 1].as_str()).to_owned();
        let ident_line = lines[start + 2].as_str();
        let skip = has_unknown_status(ident_line);
        let identity = find_identity(ident_line);
        let next = skip_block(lines, start + 3);
        match Key::new(identity, fingerprint, false) {
            None => Err("No identity in ident line: ".to_owned().concat(ident_line)),
            Some(key) => Ok(Some((key, !skip, next))),
        }
    }

    fn parse_sigs(&self, output: String) -> (sigs: Vec<(String, String)>) {
        let lines = split_lines(output.as_str());
        let ghost all = lines.deep_view();
        let mut sigs: Vec<(String, String)> = Vec::new();
        let mut i: usize = 0;
        proof {
            assert(sigs.deep_view() =~= sigs_of(all.take(0)));
        }
        while i < lines.len()
            invariant
                i <= lines.len(),
                all == lines.deep_view(),
                sigs.deep_view() == sigs_of(all.take(i as int)),
            decreases lines.len() - i,
        {
            let line = lines[i].as_str();
            proof {
                assert(all.take(i + 1).drop_last() =~= all.take(i as int));
                assert(all.take(i + 1).last() == line@);
            }
            if starts_with(line, "sig") {
                let words = split_whitespace(line);
                if words.len() >= 2 {
                    let ghost before = sigs.deep_view();
                    let fingerprint = words[1].clone();
                    let identity = inner(words[words.len() - 1].as_str()).to_owned();
                    sigs.push((fingerprint, identity));
                    proof {
                        assert(words.deep_view()[1] == fingerprint@);
                        assert(words.deep_view().last() == words[words.len() - 1]@);
                        assert(sigs.deep_view() =~= before.push((fingerprint@, identity@)));
                    }
                }
            }
            i += 1;
        }
        proof {
            assert(all.take(i as int) =~= all);
        }
        sigs
    }
}

} // verus!
