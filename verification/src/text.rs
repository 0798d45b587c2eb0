//! Text primitives shared by the rest of the crate: character access, equality
//! and the byte-wise order in which identities are kept.

use vstd::prelude::*;
use vstd::string::StrSliceExecFns;
use vstd::string::StringExecFns;
use vstd::string::StringSliceAdditionalSpecFns;
use vstd::utf8::*;

verus! {

/// Lexicographic order on byte strings: a proper prefix comes first, otherwise
/// the first differing byte decides.
pub open spec fn bytes_lt(a: Seq<u8>, b: Seq<u8>) -> bool
    decreases a.len(),
{
    if b.len() == 0 {
        false
    } else if a.len() == 0 {
        true
    } else if a[0] != b[0] {
        a[0] < b[0]
    } else {
        bytes_lt(a.skip(1), b.skip(1))
    }
}

/// The order of two texts: that of their UTF-8 encodings.
pub open spec fn text_lt(a: Seq<char>, b: Seq<char>) -> bool {
    bytes_lt(encode_utf8(a), encode_utf8(b))
}

/// No byte string comes before itself.
pub proof fn lemma_bytes_lt_irreflexive(a: Seq<u8>)
    ensures
        !bytes_lt(a, a),
    decreases a.len(),
{
    if a.len() > 0 {
        lemma_bytes_lt_irreflexive(a.skip(1));
    }
}

/// What comes before a byte string comes before all that it comes before.
pub proof fn lemma_bytes_lt_transitive(a: Seq<u8>, b: Seq<u8>, c: Seq<u8>)
    requires
        bytes_lt(a, b),
        bytes_lt(b, c),
    ensures
        bytes_lt(a, c),
    decreases a.len(),
{
    if a.len() > 0 && a[0] == b[0] && b[0] == c[0] {
        lemma_bytes_lt_transitive(a.skip(1), b.skip(1), c.skip(1));
    }
}

/// Of two different byte strings one comes before the other.
pub proof fn lemma_bytes_lt_total(a: Seq<u8>, b: Seq<u8>)
    ensures
        bytes_lt(a, b) || bytes_lt(b, a) || a == b,
    decreases a.len(),
{
    if a.len() == 0 || b.len() == 0 {
        if a.len() == 0 && b.len() == 0 {
            assert(a =~= b);
        }
    } else if a[0] == b[0] {
        lemma_bytes_lt_total(a.skip(1), b.skip(1));
        if a.skip(1) == b.skip(1) {
            assert(a =~= seq![a[0]] + a.skip(1));
            assert(b =~= seq![b[0]] + b.skip(1));
        }
    }
}

/// Two texts with the same encoding are the same text.
pub proof fn lemma_encoding_injective(a: Seq<char>, b: Seq<char>)
    requires
        encode_utf8(a) == encode_utf8(b),
    ensures
        a == b,
{
    encode_utf8_decode_utf8(a);
    encode_utf8_decode_utf8(b);
}

/// No text comes before itself.
pub proof fn lemma_text_lt_irreflexive(a: Seq<char>)
    ensures
        !text_lt(a, a),
{
    lemma_bytes_lt_irreflexive(encode_utf8(a));
}

/// What comes before a text comes before all that it comes before.
pub proof fn lemma_text_lt_transitive(a: Seq<char>, b: Seq<char>, c: Seq<char>)
    requires
        text_lt(a, b),
        text_lt(b, c),
    ensures
        text_lt(a, c),
{
    lemma_bytes_lt_transitive(encode_utf8(a), encode_utf8(b), encode_utf8(c));
}

/// Of two different texts one comes before the other.
pub proof fn lemma_text_lt_total(a: Seq<char>, b: Seq<char>)
    ensures
        text_lt(a, b) || text_lt(b, a) || a == b,
{
    lemma_bytes_lt_total(encode_utf8(a), encode_utf8(b));
    if encode_utf8(a) == encode_utf8(b) {
        lemma_encoding_injective(a, b);
    }
}

/// The characters of a text, for indexed access.
pub fn chars_of(s: &str) -> (v: Vec<char>)
    ensures
        v@ == s@,
{
    let mut v: Vec<char> = Vec::new();
    for c in it: s.chars()
        invariant
            v@ == s@.take(it.index() as int),
            it.seq() == s@,
    {
        v.push(c);
    }
    v
}

/// Whether two texts are the same, character for character.
pub fn str_eq(a: &str, b: &str) -> (same: bool)
    ensures
        same == (a@ == b@),
{
    let x = a.as_bytes();
    let y = b.as_bytes();
    if x.len() != y.len() {
        return false;
    }
    let mut i: usize = 0;
    while i < x.len()
        invariant
            x@ == a.spec_bytes(),
            y@ == b.spec_bytes(),
            x@.len() == y@.len(),
            i <= x@.len(),
            forall|j: int| 0 <= j < i ==> x@[j] == y@[j],
        decreases x@.len() - i,
    {
        if x[i] != y[i] {
            return false;
        }
        i += 1;
    }
    proof {
        assert(x@ =~= y@);
        lemma_encoding_injective(a@, b@);
    }
    true
}

/// Whether `a` comes strictly before `b` in the order of `text_lt`.
pub fn str_lt(a: &str, b: &str) -> (before: bool)
    ensures
        before == text_lt(a@, b@),
{
    let x = a.as_bytes();
    let y = b.as_bytes();
    let mut i: usize = 0;
    proof {
        assert(x@.skip(0) =~= x@);
        assert(y@.skip(0) =~= y@);
    }
    while i < x.len() && i < y.len()
        invariant
            i <= x@.len(),
            i <= y@.len(),
            x@ == a.spec_bytes(),
            y@ == b.spec_bytes(),
            bytes_lt(x@, y@) == bytes_lt(x@.skip(i as int), y@.skip(i as int)),
        decreases x@.len() - i,
    {
        proof {
            assert(x@.skip(i as int).skip(1) =~= x@.skip(i + 1));
            assert(y@.skip(i as int).skip(1) =~= y@.skip(i + 1));
        }
        if x[i] != y[i] {
            return x[i] < y[i];
        }
        i += 1;
    }
    i < y.len()
}

/// A line without the carriage return that may stand before its line feed.
pub open spec fn strip_cr(line: Seq<char>) -> Seq<char> {
    if line.len() > 0 && line.last() == '\r' {
        line.drop_last()
    } else {
        line
    }
}

/// The lines of a text. A line ends with a line feed, or with a carriage
/// return and a line feed; neither belongs to the line. What follows the last
/// line feed is a line too, unless it is empty.
pub open spec fn lines_of(s: Seq<char>) -> Seq<Seq<char>>
    decreases s.len(),
{
    if s.len() == 0 {
        Seq::empty()
    } else {
        let end = first_index_of(s, '\n');
        if 0 <= end < s.len() {
            seq![strip_cr(s.take(end))] + lines_of(s.skip(end + 1))
        } else {
            seq![s]
        }
    }
}

/// Splits a text into its lines.
pub fn split_lines(s: &str) -> (lines: Vec<String>)
    ensures
        lines.deep_view() == lines_of(s@),
{
    let chars = chars_of(s);
    let mut lines: Vec<String> = Vec::new();
    let mut start: usize = 0;
    proof {
        assert(s@.skip(0) =~= s@);
        assert(lines.deep_view() =~= Seq::<Seq<char>>::empty());
    }
    while start < chars.len()
        invariant
            chars@ == s@,
            start <= chars.len(),
            lines_of(s@) == lines.deep_view() + lines_of(s@.skip(start as int)),
        decreases chars.len() - start,
    {
        let mut end: usize = start;
        while end < chars.len() && chars[end] != '\n'
            invariant
                chars@ == s@,
                start <= end <= chars.len(),
                forall|j: int| start <= j < end ==> s@[j] != '\n',
            decreases chars.len() - end,
        {
            end += 1;
        }
        let ghost rest = s@.skip(start as int);
        let ghost before = lines.deep_view();
        proof {
            lemma_first_index_at(rest, '\n', end - start);
            assert(rest.take(end - start) =~= s@.subrange(start as int, end as int));
        }
        if end < chars.len() {
            proof {
                assert(rest.skip(end - start + 1) =~= s@.skip(end + 1));
            }
            let stop = if end > start && chars[end - 1] == '\r' {
                end - 1
            } else {
                end
            };
            let line = s.substring_char(start, stop).to_owned();
            proof {
                assert(line@ =~= strip_cr(s@.subrange(start as int, end as int)));
            }
            lines.push(line);
            proof {
                assert(lines.deep_view() =~= before.push(line@));
                assert(lines_of(s@) =~= lines.deep_view() + lines_of(s@.skip(end + 1)));
            }
            start = end + 1;
        } else {
            let line = s.substring_char(start, end).to_owned();
            proof {
                assert(line@ =~= rest);
            }
            lines.push(line);
            proof {
                assert(lines.deep_view() =~= before.push(line@));
                assert(s@.skip(end as int).len() == 0);
                assert(lines_of(s@) =~= lines.deep_view() + lines_of(s@.skip(end as int)));
            }
            start = end;
        }
    }
    proof {
        assert(s@.skip(start as int).len() == 0);
    }
    lines
}

/// The text that holds the given lines, each followed by a line feed.
pub open spec fn joined_lines(lines: Seq<Seq<char>>) -> Seq<char>
    decreases lines.len(),
{
    if lines.len() == 0 {
        Seq::empty()
    } else {
        lines[0] + seq!['\n'] + joined_lines(lines.skip(1))
    }
}

/// Whether a text can stand as a line of its own: it holds no line feed and
/// does not end with a carriage return.
pub open spec fn is_plain_line(line: Seq<char>) -> bool {
    &&& forall|i: int| 0 <= i < line.len() ==> line[i] != '\n'
    &&& (line.len() > 0 ==> line.last() != '\r')
}

/// Lines that are written out, each with its line feed, are read back as they
/// were, provided that each can stand as a line of its own.
pub proof fn lemma_lines_of_joined(lines: Seq<Seq<char>>)
    requires
        forall|i: int| 0 <= i < lines.len() ==> is_plain_line(#[trigger] lines[i]),
    ensures
        lines_of(joined_lines(lines)) == lines,
    decreases lines.len(),
{
    if lines.len() > 0 {
        let first = lines[0];
        let rest = joined_lines(lines.skip(1));
        let text = joined_lines(lines);
        assert(is_plain_line(first));
        assert(text =~= first + seq!['\n'] + rest);
        lemma_first_index_at(text, '\n', first.len() as int);
        assert(text.take(first.len() as int) =~= first);
        assert(text.skip(first.len() as int + 1) =~= rest);
        assert forall|i: int| 0 <= i < lines.skip(1).len() implies is_plain_line(
            #[trigger] lines.skip(1)[i],
        ) by {
            assert(lines.skip(1)[i] == lines[i + 1]);
        }
        lemma_lines_of_joined(lines.skip(1));
        assert(lines =~= seq![first] + lines.skip(1));
    }
}

/// Writes the given lines out, each followed by a line feed.
pub fn join_lines(lines: &Vec<String>) -> (text: String)
    ensures
        text@ == joined_lines(lines.deep_view()),
{
    let mut text = String::new();
    let mut i: usize = lines.len();
    let ghost all = lines.deep_view();
    proof {
        assert(all.skip(i as int) =~= Seq::<Seq<char>>::empty());
    }
    while i > 0
        invariant
            i <= lines.len(),
            all == lines.deep_view(),
            text@ == joined_lines(all.skip(i as int)),
        decreases i,
    {
        i -= 1;
        let mut line = lines[i].clone();
        proof {
            reveal_strlit("\n");
            assert(all.skip(i as int).skip(1) =~= all.skip(i + 1));
            assert(all.skip(i as int)[0] == line@);
        }
        line.append("\n");
        line.append(text.as_str());
        text = line;
    }
    proof {
        assert(all.skip(0) =~= all);
    }
    text
}

/// Whether a character is white space, as Unicode defines it.
pub open spec fn is_space(c: char) -> bool {
    let code = c as u32;
    ||| 0x09 <= code <= 0x0d
    ||| code == 0x20
    ||| code == 0x85
    ||| code == 0xa0
    ||| code == 0x1680
    ||| 0x2000 <= code <= 0x200a
    ||| code == 0x2028
    ||| code == 0x2029
    ||| code == 0x202f
    ||| code == 0x205f
    ||| code == 0x3000
}

/// Whether a character is white space, as Unicode defines it.
pub fn is_whitespace(c: char) -> (space: bool)
    ensures
        space == is_space(c),
{
    let code: u32 = c as u32;
    (0x09 <= code && code <= 0x0d) || code == 0x20 || code == 0x85 || code == 0xa0 || code
        == 0x1680 || (0x2000 <= code && code <= 0x200a) || code == 0x2028 || code == 0x2029 || code
        == 0x202f || code == 0x205f || code == 0x3000
}

/// Number of white-space characters at the start of a text.
pub open spec fn leading_spaces(s: Seq<char>) -> nat
    decreases s.len(),
{
    if s.len() > 0 && is_space(s[0]) {
        1 + leading_spaces(s.skip(1))
    } else {
        0
    }
}

/// Number of white-space characters at the end of a text.
pub open spec fn trailing_spaces(s: Seq<char>) -> nat
    decreases s.len(),
{
    if s.len() > 0 && is_space(s.last()) {
        1 + trailing_spaces(s.drop_last())
    } else {
        0
    }
}

/// A text without the white space at its start and at its end.
pub open spec fn trimmed(s: Seq<char>) -> Seq<char> {
    let rest = s.skip(leading_spaces(s) as int);
    rest.take(rest.len() - trailing_spaces(rest))
}

proof fn lemma_leading_spaces(s: Seq<char>, k: int)
    requires
        0 <= k <= s.len(),
        forall|j: int| 0 <= j < k ==> is_space(#[trigger] s[j]),
        k == s.len() || !is_space(s[k]),
    ensures
        leading_spaces(s) == k,
    decreases k,
{
    if k > 0 {
        lemma_leading_spaces(s.skip(1), k - 1);
    }
}

proof fn lemma_trailing_spaces(s: Seq<char>, k: int)
    requires
        0 <= k <= s.len(),
        forall|j: int| s.len() - k <= j < s.len() ==> is_space(#[trigger] s[j]),
        k == s.len() || !is_space(s[s.len() - k - 1]),
    ensures
        trailing_spaces(s) == k,
    decreases k,
{
    if k > 0 {
        lemma_trailing_spaces(s.drop_last(), k - 1);
    }
}

/// Takes the white space off both ends of a text.
pub fn trim(s: &str) -> (inner: &str)
    ensures
        inner@ == trimmed(s@),
{
    let chars = chars_of(s);
    let mut start: usize = 0;
    while start < chars.len() && is_whitespace(chars[start])
        invariant
            chars@ == s@,
            start <= chars.len(),
            forall|j: int| 0 <= j < start ==> is_space(#[trigger] s@[j]),
        decreases chars.len() - start,
    {
        start += 1;
    }
    let mut end: usize = chars.len();
    while end > start && is_whitespace(chars[end - 1])
        invariant
            chars@ == s@,
            start <= end <= chars.len(),
            forall|j: int| end <= j < chars.len() ==> is_space(#[trigger] s@[j]),
        decreases end,
    {
        end -= 1;
    }
    proof {
        lemma_leading_spaces(s@, start as int);
        let rest = s@.skip(start as int);
        assert forall|j: int| rest.len() - (chars.len() - end) <= j < rest.len() implies is_space(
            #[trigger] rest[j],
        ) by {
            assert(rest[j] == s@[j + start]);
        }
        if end > start {
            assert(rest[end - start - 1] == s@[end - 1]);
        }
        lemma_trailing_spaces(rest, chars.len() - end);
        assert(s@.subrange(start as int, end as int) =~= trimmed(s@));
    }
    s.substring_char(start, end)
}

/// Whether a character is one of the ten digits.
pub open spec fn is_digit(c: char) -> bool {
    '0' <= c <= '9'
}

/// The number that a text of digits writes in base ten; none where the text
/// is empty or holds anything but digits.
pub open spec fn digits_value(s: Seq<char>) -> Option<nat>
    decreases s.len(),
{
    if s.len() == 0 {
        None
    } else if !is_digit(s.last()) {
        None
    } else if s.len() == 1 {
        Some((s.last() as u32 - '0' as u32) as nat)
    } else {
        match digits_value(s.drop_last()) {
            Some(front) => Some((front * 10 + (s.last() as u32 - '0' as u32)) as nat),
            None => None,
        }
    }
}

/// The number that a text writes, as a machine word: digits in base ten with
/// at most one `+` before them, and no more than the word can hold.
pub open spec fn parsed_usize(s: Seq<char>) -> Option<usize> {
    let digits = if s.len() > 0 && s[0] == '+' {
        s.skip(1)
    } else {
        s
    };
    match digits_value(digits) {
        Some(value) => if value <= usize::MAX {
            Some(value as usize)
        } else {
            None
        },
        None => None,
    }
}

/// A text of digits that begins with a number too large for a bound writes
/// a number too large for it.
proof fn lemma_digits_grow(s: Seq<char>, k: int, bound: nat)
    requires
        0 < k <= s.len(),
        digits_value(s.take(k)) matches Some(v) && v > bound,
    ensures
        digits_value(s) matches Some(v) ==> v > bound,
    decreases s.len() - k,
{
    if k < s.len() {
        assert(s.take(k + 1).drop_last() =~= s.take(k));
        if digits_value(s.take(k + 1)) is Some {
            lemma_digits_grow(s, k + 1, bound);
        } else {
            lemma_digits_none(s, k + 1);
        }
    } else {
        assert(s.take(k) =~= s);
    }
}

/// A text of digits that begins with what is no number is no number.
proof fn lemma_digits_none(s: Seq<char>, k: int)
    requires
        0 < k <= s.len(),
        digits_value(s.take(k)) is None,
    ensures
        digits_value(s) is None,
    decreases s.len() - k,
{
    if k < s.len() {
        assert(s.take(k + 1).drop_last() =~= s.take(k));
        lemma_digits_none(s, k + 1);
    } else {
        assert(s.take(k) =~= s);
    }
}

/// Reads a number out of a text.
pub fn parse_usize(s: &str) -> (number: Option<usize>)
    ensures
        number == parsed_usize(s@),
{
    let chars = chars_of(s);
    let start: usize = if chars.len() > 0 && chars[0] == '+' {
        1
    } else {
        0
    };
    let ghost digits = s@.skip(start as int);
    proof {
        assert(s@.skip(0) =~= s@);
    }
    if start == chars.len() {
        return None;
    }
    let mut value: usize = 0;
    let mut i: usize = start;
    while i < chars.len()
        invariant
            chars@ == s@,
            start <= i <= chars.len(),
            start < chars.len(),
            digits == s@.skip(start as int),
            digits == (if s@.len() > 0 && s@[0] == '+' {
                s@.skip(1)
            } else {
                s@
            }),
            i > start ==> digits_value(digits.take(i - start)) == Some(value as nat),
            i == start ==> value == 0,
        decreases chars.len() - i,
    {
        let c = chars[i];
        proof {
            assert(digits.take(i + 1 - start).drop_last() =~= digits.take(i - start));
            assert(digits.take(i + 1 - start).last() == c);
        }
        if !(c >= '0' && c <= '9') {
            proof {
                assert(!is_digit(c));
                assert(digits_value(digits.take(i + 1 - start)) is None);
                lemma_digits_none(digits, i + 1 - start);
            }
            return None;
        }
        proof {
            assert(is_digit(c));
            assert(digits_value(digits.take(i + 1 - start)) == Some(
                (value * 10 + (c as u32 - '0' as u32)) as nat,
            ));
        }
        let digit: usize = (c as u32 - '0' as u32) as usize;
        let next = match value.checked_mul(10) {
            Some(tens) => tens.checked_add(digit),
            None => None,
        };
        match next {
            Some(sum) => {
                value = sum;
            },
            None => {
                proof {
                    assert(value * 10 + digit > usize::MAX);
                    lemma_digits_grow(digits, i + 1 - start, usize::MAX as nat);
                }
                return None;
            },
        }
        i += 1;
    }
    proof {
        assert(digits.take(i - start) =~= digits);
    }
    Some(value)
}

/// Number of characters at the start of a text that are no white space.
pub open spec fn word_len(s: Seq<char>) -> nat
    decreases s.len(),
{
    if s.len() > 0 && !is_space(s[0]) {
        1 + word_len(s.skip(1))
    } else {
        0
    }
}

/// The words of a text: its longest runs of characters that are no white
/// space, in their order.
pub open spec fn words_of(s: Seq<char>) -> Seq<Seq<char>>
    decreases s.len(),
{
    if s.len() == 0 {
        Seq::empty()
    } else if is_space(s[0]) {
        words_of(s.skip(1))
    } else {
        let n = word_len(s);
        if 1 <= n <= s.len() {
            seq![s.take(n as int)] + words_of(s.skip(n as int))
        } else {
            Seq::empty()
        }
    }
}

proof fn lemma_word_len(s: Seq<char>, k: int)
    requires
        0 <= k <= s.len(),
        forall|j: int| 0 <= j < k ==> !is_space(#[trigger] s[j]),
        k == s.len() || is_space(s[k]),
    ensures
        word_len(s) == k,
    decreases k,
{
    if k > 0 {
        lemma_word_len(s.skip(1), k - 1);
    }
}

/// Splits a text into its words.
pub fn split_whitespace(s: &str) -> (words: Vec<String>)
    ensures
        words.deep_view() == words_of(s@),
{
    let chars = chars_of(s);
    let mut words: Vec<String> = Vec::new();
    let mut pos: usize = 0;
    proof {
        assert(s@.skip(0) =~= s@);
        assert(words.deep_view() =~= Seq::<Seq<char>>::empty());
    }
    while pos < chars.len()
        invariant
            chars@ == s@,
            pos <= chars.len(),
            words_of(s@) == words.deep_view() + words_of(s@.skip(pos as int)),
        decreases chars.len() - pos,
    {
        let ghost rest = s@.skip(pos as int);
        proof {
            assert(rest[0] == s@[pos as int]);
            assert(rest.skip(1) =~= s@.skip(pos + 1));
        }
        if is_whitespace(chars[pos]) {
            pos += 1;
        } else {
            let mut end: usize = pos + 1;
            while end < chars.len() && !is_whitespace(chars[end])
                invariant
                    chars@ == s@,
                    pos < end <= chars.len(),
                    forall|j: int| pos <= j < end ==> !is_space(#[trigger] s@[j]),
                decreases chars.len() - end,
            {
                end += 1;
            }
            let ghost before = words.deep_view();
            let word = s.substring_char(pos, end).to_owned();
            proof {
                assert forall|j: int| 0 <= j < end - pos implies !is_space(#[trigger] rest[j]) by {
                    assert(rest[j] == s@[j + pos]);
                }
                if end < chars.len() {
                    assert(rest[end - pos] == s@[end as int]);
                }
                lemma_word_len(rest, end - pos);
                assert(rest.take(end - pos) =~= word@);
                assert(rest.skip(end - pos) =~= s@.skip(end as int));
            }
            words.push(word);
            proof {
                assert(words.deep_view() =~= before.push(word@));
            }
            pos = end;
        }
    }
    proof {
        assert(s@.skip(pos as int).len() == 0);
    }
    words
}

/// Whether a text begins with another.
pub open spec fn has_prefix(s: Seq<char>, prefix: Seq<char>) -> bool {
    prefix.len() <= s.len() && s.take(prefix.len() as int) == prefix
}

/// Whether a text begins with another.
pub fn starts_with(s: &str, prefix: &str) -> (begins: bool)
    ensures
        begins == has_prefix(s@, prefix@),
{
    let text = chars_of(s);
    let head = chars_of(prefix);
    if head.len() > text.len() {
        return false;
    }
    let mut i: usize = 0;
    while i < head.len()
        invariant
            text@ == s@,
            head@ == prefix@,
            i <= head.len() <= text.len(),
            forall|j: int| 0 <= j < i ==> text@[j] == head@[j],
        decreases head.len() - i,
    {
        if text[i] != head[i] {
            proof {
                assert(s@.take(prefix@.len() as int)[i as int] != prefix@[i as int]);
            }
            return false;
        }
        i += 1;
    }
    proof {
        assert(s@.take(prefix@.len() as int) =~= prefix@);
    }
    true
}

/// A text without its first and its last character; empty where it has
/// fewer than two.
pub open spec fn inner_of(s: Seq<char>) -> Seq<char> {
    if s.len() >= 2 {
        s.subrange(1, s.len() - 1)
    } else {
        Seq::empty()
    }
}

/// Takes the first and the last character off a text.
pub fn inner(s: &str) -> (middle: &str)
    ensures
        middle@ == inner_of(s@),
{
    let n = s.unicode_len();
    if n >= 2 {
        s.substring_char(1, n - 1)
    } else {
        proof {
            assert(s@.subrange(0, 0) =~= Seq::<char>::empty());
        }
        s.substring_char(0, 0)
    }
}

/// Position of the first occurrence of a character in a text; the length of
/// the text where it does not occur.
pub open spec fn first_index_of(s: Seq<char>, c: char) -> int
    decreases s.len(),
{
    if s.len() == 0 {
        0
    } else if s[0] == c {
        0
    } else {
        1 + first_index_of(s.skip(1), c)
    }
}

/// A text whose first `k` characters are not `c`, and which ends there or
/// has `c` there, has its first `c` at `k`.
pub proof fn lemma_first_index_at(s: Seq<char>, c: char, k: int)
    requires
        0 <= k <= s.len(),
        forall|j: int| 0 <= j < k ==> s[j] != c,
        k == s.len() || s[k] == c,
    ensures
        first_index_of(s, c) == k,
    decreases k,
{
    if k > 0 {
        lemma_first_index_at(s.skip(1), c, k - 1);
    }
}

/// Finds the first occurrence of a character between two positions of a
/// text; the end position where there is none.
pub fn find_char(chars: &Vec<char>, from: usize, to: usize, c: char) -> (at: usize)
    requires
        from <= to <= chars.len(),
    ensures
        from <= at <= to,
        at - from == first_index_of(chars@.subrange(from as int, to as int), c),
{
    let mut at: usize = from;
    while at < to && chars[at] != c
        invariant
            from <= at <= to <= chars.len(),
            forall|j: int| from <= j < at ==> chars@[j] != c,
        decreases to - at,
    {
        at += 1;
    }
    proof {
        let part = chars@.subrange(from as int, to as int);
        assert forall|j: int| 0 <= j < at - from implies part[j] != c by {
            assert(part[j] == chars@[j + from]);
        }
        lemma_first_index_at(part, c, at - from);
    }
    at
}

} // verus!
