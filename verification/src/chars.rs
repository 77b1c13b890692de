//! Character-level text helpers: whitespace and script classification,
//! character/byte index conversion and character-range slicing.
//!
//! All public offsets in this crate are character indices (`str.chars()`
//! positions), not byte offsets; the helpers here are what keep the two
//! index spaces straight when multi-byte text is sliced.

use crate::error::{KiwiError, Result};
use vstd::prelude::*;
use vstd::string::StringExecFns;
use vstd::string::StringSliceAdditionalSpecFns;
use vstd::string::StrSliceExecFns;
use vstd::utf8::{encode_scalar, encode_utf8};

verus! {

/// Holds when two half-open ranges `[a_begin, a_end)` and `[b_begin, b_end)`
/// share at least one point.
pub open spec fn spec_ranges_overlap(
    a_begin: usize,
    a_end: usize,
    b_begin: usize,
    b_end: usize,
) -> bool {
    a_begin < b_end && b_begin < a_end
}

/// Reports whether the half-open ranges `[a_begin, a_end)` and
/// `[b_begin, b_end)` intersect; touching ranges do not overlap.
pub fn ranges_overlap(a_begin: usize, a_end: usize, b_begin: usize, b_end: usize) -> (r: bool)
    ensures
        r == spec_ranges_overlap(a_begin, a_end, b_begin, b_end),
{
    a_begin < b_end && b_begin < a_end
}

/// The Unicode `White_Space` characters, as `char::is_whitespace` reports
/// them.
pub open spec fn is_whitespace_char(c: char) -> bool {
    let u = c as u32;
    u == 0x20 || (0x09 <= u && u <= 0x0D) || u == 0x85 || u == 0xA0 || u == 0x1680 || (0x2000 <= u
        && u <= 0x200A) || u == 0x2028 || u == 0x2029 || u == 0x202F || u == 0x205F || u == 0x3000
}

/// Reports whether `c` is a Unicode whitespace character.
pub fn char_is_whitespace(c: char) -> (r: bool)
    ensures
        r == is_whitespace_char(c),
{
    let u = c as u32;
    u == 0x20 || (0x09 <= u && u <= 0x0D) || u == 0x85 || u == 0xA0 || u == 0x1680 || (0x2000 <= u
        && u <= 0x200A) || u == 0x2028 || u == 0x2029 || u == 0x202F || u == 0x205F || u == 0x3000
}

/// ASCII letters and digits.
pub open spec fn is_ascii_alnum_char(c: char) -> bool {
    let u = c as u32;
    (0x30 <= u && u <= 0x39) || (0x41 <= u && u <= 0x5A) || (0x61 <= u && u <= 0x7A)
}

/// Reports whether `c` is an ASCII letter or digit.
pub fn char_is_ascii_alnum(c: char) -> (r: bool)
    ensures
        r == is_ascii_alnum_char(c),
{
    let u = c as u32;
    (0x30 <= u && u <= 0x39) || (0x41 <= u && u <= 0x5A) || (0x61 <= u && u <= 0x7A)
}

/// Precomposed Hangul syllables (U+AC00 through U+D7A3).
pub open spec fn spec_is_hangul_syllable(c: char) -> bool {
    0xAC00 <= c as u32 && c as u32 <= 0xD7A3
}

/// Reports whether `ch` is a precomposed Hangul syllable.
pub fn is_hangul_syllable(ch: char) -> (r: bool)
    ensures
        r == spec_is_hangul_syllable(ch),
{
    let u = ch as u32;
    0xAC00 <= u && u <= 0xD7A3
}

/// Hangul syllables plus the ASCII sentence punctuation that may follow one
/// without an intervening space.
pub open spec fn spec_is_hangul_or_sentence_punct(c: char) -> bool {
    spec_is_hangul_syllable(c) || c == '.' || c == ',' || c == '?' || c == '!' || c == ':' || c
        == ';'
}

/// Reports whether `ch` is a Hangul syllable or sentence punctuation.
pub fn is_hangul_or_sentence_punct(ch: char) -> (r: bool)
    ensures
        r == spec_is_hangul_or_sentence_punct(ch),
{
    is_hangul_syllable(ch) || ch == '.' || ch == ',' || ch == '?' || ch == '!' || ch == ':' || ch
        == ';'
}

/// Width in bytes of the UTF-8 encoding of `c`.
pub fn char_utf8_len(c: char) -> (n: usize)
    ensures
        n == encode_scalar(c as u32).len(),
        1 <= n <= 4,
{
    proof {
        vstd::utf8::char_is_scalar(c);
    }
    let u = c as u32;
    if u < 0x80 {
        1
    } else if u < 0x800 {
        2
    } else if u < 0x10000 {
        3
    } else {
        4
    }
}

/// The byte length of a character sequence is the sum of the byte lengths of
/// any prefix/suffix split.
pub proof fn lemma_encode_utf8_split(s: Seq<char>, i: int)
    requires
        0 <= i <= s.len(),
    ensures
        encode_utf8(s) == encode_utf8(s.take(i)) + encode_utf8(s.skip(i)),
    decreases i,
{
    if i == 0 {
        assert(s.take(0) =~= Seq::<char>::empty());
        assert(s.skip(0) =~= s);
        assert(encode_utf8(s.take(0)) + encode_utf8(s.skip(0)) =~= encode_utf8(s));
    } else {
        let rest = s.drop_first();
        lemma_encode_utf8_split(rest, i - 1);
        assert(s.take(i).drop_first() =~= rest.take(i - 1));
        assert(s.skip(i) =~= rest.skip(i - 1));
        assert(encode_utf8(s.take(i)) == encode_scalar(s[0] as u32) + encode_utf8(
            rest.take(i - 1),
        ));
        assert(encode_utf8(s.take(i)) + encode_utf8(s.skip(i)) =~= encode_scalar(s[0] as u32) + (
        encode_utf8(rest.take(i - 1)) + encode_utf8(rest.skip(i - 1))));
    }
}

/// Extending a prefix by one character appends that character's encoding.
pub proof fn lemma_encode_utf8_snoc(s: Seq<char>, i: int)
    requires
        0 <= i < s.len(),
    ensures
        encode_utf8(s.take(i + 1)) == encode_utf8(s.take(i)) + encode_scalar(s[i] as u32),
{
    let t = s.take(i + 1);
    lemma_encode_utf8_split(t, i);
    assert(t.take(i) =~= s.take(i));
    assert(t.skip(i) =~= seq![s[i]]);
    vstd::utf8::char_is_scalar(s[i]);
    let single = seq![s[i]];
    assert(single.drop_first() =~= Seq::<char>::empty());
    assert(encode_utf8(single.drop_first()) =~= Seq::<u8>::empty());
    assert(encode_utf8(single) =~= encode_scalar(single[0] as u32) + encode_utf8(
        single.drop_first(),
    ));
    assert(encode_utf8(single) =~= encode_scalar(s[i] as u32));
}

/// The table mapping each character index of `s` (plus the one-past-the-end
/// position) to its byte offset in the UTF-8 encoding of `s`.
pub open spec fn is_char_byte_map(m: Seq<usize>, s: Seq<char>) -> bool {
    &&& m.len() == s.len() + 1
    &&& forall|i: int| 0 <= i <= s.len() ==> #[trigger] m[i] == encode_utf8(s.take(i)).len()
}

/// Builds the character-index to byte-offset table for `text`, with one
/// extra entry holding the total byte length.
pub fn build_char_to_byte_map(text: &str) -> (map: Vec<usize>)
    ensures
        is_char_byte_map(map@, text@),
{
    let total_bytes = text.as_bytes().len();
    let n = text.unicode_len();
    let mut map: Vec<usize> = Vec::new();
    map.push(0);
    let mut acc: usize = 0;
    let mut i: usize = 0;
    proof {
        assert(text@.take(0) =~= Seq::<char>::empty());
    }
    while i < n
        invariant
            i <= n,
            n == text@.len(),
            total_bytes == encode_utf8(text@).len(),
            acc == encode_utf8(text@.take(i as int)).len(),
            map@.len() == i + 1,
            forall|j: int| 0 <= j <= i ==> #[trigger] map@[j] == encode_utf8(text@.take(j)).len(),
        decreases n - i,
    {
        let c = text.get_char(i);
        let w = char_utf8_len(c);
        proof {
            lemma_encode_utf8_snoc(text@, i as int);
            lemma_encode_utf8_split(text@, i as int + 1);
        }
        acc = acc + w;
        map.push(acc);
        i = i + 1;
    }
    map
}

/// The index of the character of `s` in which byte offset `b` falls, scanned
/// from character `i` on: the largest character index whose byte offset does
/// not exceed `b`, capped at the character count.
pub open spec fn spec_byte_to_char_from(s: Seq<char>, b: int, i: int) -> int
    decreases s.len() - i,
{
    if i >= s.len() {
        i
    } else if encode_utf8(s.take(i + 1)).len() > b {
        i
    } else {
        spec_byte_to_char_from(s, b, i + 1)
    }
}

/// The character index in which byte offset `b` of the encoding of `s`
/// falls, capped at the character count.
pub open spec fn spec_byte_to_char(s: Seq<char>, b: int) -> int {
    spec_byte_to_char_from(s, b, 0)
}

/// Converts a byte offset into `text` to the index of the character in which
/// it falls: the largest character index whose byte offset does not exceed
/// `byte_index`, capped at the character count.
pub fn byte_to_char_index(text: &str, byte_index: usize) -> (r: usize)
    ensures
        r <= text@.len(),
        encode_utf8(text@.take(r as int)).len() <= byte_index,
        r < text@.len() ==> byte_index < encode_utf8(text@.take(r as int + 1)).len(),
        r == spec_byte_to_char(text@, byte_index as int),
{
    let total_bytes = text.as_bytes().len();
    let n = text.unicode_len();
    let mut acc: usize = 0;
    let mut i: usize = 0;
    proof {
        assert(text@.take(0) =~= Seq::<char>::empty());
    }
    while i < n
        invariant
            i <= n,
            n == text@.len(),
            total_bytes == encode_utf8(text@).len(),
            acc == encode_utf8(text@.take(i as int)).len(),
            acc <= byte_index,
            spec_byte_to_char(text@, byte_index as int) == spec_byte_to_char_from(
                text@,
                byte_index as int,
                i as int,
            ),
        decreases n - i,
    {
        let c = text.get_char(i);
        let w = char_utf8_len(c);
        proof {
            lemma_encode_utf8_snoc(text@, i as int);
            lemma_encode_utf8_split(text@, i as int + 1);
            assert(acc + w <= total_bytes);
        }
        if acc + w > byte_index {
            return i;
        }
        acc = acc + w;
        i = i + 1;
    }
    i
}

/// The slice of `s` between the character offsets `begin` and `end`, each
/// clamped to the character count, with an empty result when the clamped
/// range is reversed.
pub open spec fn spec_slice_char_range(s: Seq<char>, begin: int, end: int) -> Seq<char> {
    let len = s.len() as int;
    let sb = if begin <= len {
        begin
    } else {
        len
    };
    let se0 = if end <= len {
        end
    } else {
        len
    };
    let se = if se0 >= sb {
        se0
    } else {
        sb
    };
    s.subrange(sb, se)
}

/// Slices `text` by clamped character offsets, using a precomputed
/// character-to-byte table for the text.
pub fn slice_char_range<'a>(text: &'a str, map: &[usize], begin: usize, end: usize) -> (r: &'a str)
    requires
        is_char_byte_map(map@, text@),
    ensures
        r@ == spec_slice_char_range(text@, begin as int, end as int),
{
    let max = map.len() - 1;
    let safe_begin = if begin < max {
        begin
    } else {
        max
    };
    let mut safe_end = if end < max {
        end
    } else {
        max
    };
    if safe_end < safe_begin {
        safe_end = safe_begin;
    }
    text.substring_char(safe_begin, safe_end)
}

/// Compares two string slices by character content.
pub fn str_eq(a: &str, b: &str) -> (r: bool)
    ensures
        r == (a@ == b@),
{
    let n = a.unicode_len();
    if n != b.unicode_len() {
        return false;
    }
    let mut i: usize = 0;
    while i < n
        invariant
            i <= n,
            n == a@.len(),
            n == b@.len(),
            forall|j: int| 0 <= j < i ==> a@[j] == b@[j],
        decreases n - i,
    {
        if a.get_char(i) != b.get_char(i) {
            return false;
        }
        i = i + 1;
    }
    proof {
        assert(a@ =~= b@);
    }
    true
}

/// `p` is a prefix of `s`.
pub open spec fn spec_starts_with(s: Seq<char>, p: Seq<char>) -> bool {
    p.len() <= s.len() && s.take(p.len() as int) == p
}

/// Reports whether `s` starts with `prefix`, by character content.
pub fn str_starts_with(s: &str, prefix: &str) -> (r: bool)
    ensures
        r == spec_starts_with(s@, prefix@),
{
    let np = prefix.unicode_len();
    let n = s.unicode_len();
    if np > n {
        proof {
            assert(!spec_starts_with(s@, prefix@));
        }
        return false;
    }
    let mut i: usize = 0;
    while i < np
        invariant
            i <= np,
            np == prefix@.len(),
            n == s@.len(),
            np <= n,
            forall|j: int| 0 <= j < i ==> s@[j] == prefix@[j],
        decreases np - i,
    {
        if s.get_char(i) != prefix.get_char(i) {
            proof {
                assert(s@.take(np as int)[i as int] != prefix@[i as int]);
            }
            return false;
        }
        i = i + 1;
    }
    proof {
        assert(s@.take(np as int) =~= prefix@);
    }
    true
}

/// `s` starts with one of the prefixes.
pub open spec fn spec_starts_with_any(s: Seq<char>, prefixes: Seq<&str>) -> bool {
    exists|i: int| 0 <= i < prefixes.len() && spec_starts_with(s, #[trigger] prefixes[i]@)
}

/// Reports whether `tag` starts with any of the given prefixes.
pub fn starts_with_any(tag: &str, prefixes: &[&str]) -> (r: bool)
    ensures
        r == spec_starts_with_any(tag@, prefixes@),
{
    let n = prefixes.len();
    let mut i: usize = 0;
    while i < n
        invariant
            i <= n,
            n == prefixes@.len(),
            forall|j: int| 0 <= j < i ==> !spec_starts_with(tag@, #[trigger] prefixes@[j]@),
        decreases n - i,
    {
        if str_starts_with(tag, prefixes[i]) {
            return true;
        }
        i = i + 1;
    }
    false
}

/// `s` with every whitespace character removed.
pub open spec fn spec_strip_whitespace(s: Seq<char>) -> Seq<char> {
    s.filter(|c: char| !is_whitespace_char(c))
}

/// Removes every whitespace character from `value`.
pub fn strip_all_whitespace(value: &str) -> (r: String)
    ensures
        r@ == spec_strip_whitespace(value@),
{
    let n = value.unicode_len();
    let mut out = String::new();
    let mut i: usize = 0;
    proof {
        reveal_with_fuel(Seq::<_>::filter, 1);
        assert(value@.take(0) =~= Seq::<char>::empty());
    }
    while i < n
        invariant
            i <= n,
            n == value@.len(),
            out@ == spec_strip_whitespace(value@.take(i as int)),
        decreases n - i,
    {
        let c = value.get_char(i);
        proof {
            reveal_with_fuel(Seq::<_>::filter, 1);
            let t1 = value@.take(i as int + 1);
            assert(t1.drop_last() =~= value@.take(i as int));
            assert(t1.last() == value@[i as int]);
        }
        if !char_is_whitespace(c) {
            let piece = value.substring_char(i, i + 1);
            proof {
                assert(piece@ =~= seq![value@[i as int]]);
                assert(spec_strip_whitespace(value@.take(i as int + 1)) =~= spec_strip_whitespace(
                    value@.take(i as int),
                ).push(value@[i as int]));
            }
            out.append(piece);
        }
        i = i + 1;
    }
    proof {
        assert(value@.take(n as int) =~= value@);
    }
    out
}

/// Index of the first non-whitespace character of `s` at or after `i`, or
/// the length of `s` when the rest is all whitespace.
pub open spec fn first_non_ws(s: Seq<char>, i: int) -> int
    decreases s.len() - i,
{
    if i < 0 || i >= s.len() {
        s.len() as int
    } else if !is_whitespace_char(s[i]) {
        i
    } else {
        first_non_ws(s, i + 1)
    }
}

/// `s` with leading and trailing whitespace removed.
pub open spec fn spec_trim(s: Seq<char>) -> Seq<char> {
    let a = first_non_ws(s, 0);
    let b = last_non_ws_end(s, s.len() as int);
    if a < b {
        s.subrange(a, b)
    } else {
        Seq::empty()
    }
}

proof fn lemma_last_non_ws_end_bounds(s: Seq<char>, i: int)
    requires
        0 <= i <= s.len(),
    ensures
        0 <= last_non_ws_end(s, i) <= i,
        forall|j: int| last_non_ws_end(s, i) <= j < i ==> is_whitespace_char(s[j]),
        last_non_ws_end(s, i) > 0 ==> !is_whitespace_char(s[last_non_ws_end(s, i) - 1]),
    decreases i,
{
    if i > 0 && is_whitespace_char(s[i - 1]) {
        lemma_last_non_ws_end_bounds(s, i - 1);
    }
}

/// Removes leading and trailing whitespace from `value`.
pub fn trimmed<'a>(value: &'a str) -> (r: &'a str)
    ensures
        r@ == spec_trim(value@),
{
    let n = value.unicode_len();
    let mut a: usize = 0;
    while a < n && char_is_whitespace(value.get_char(a))
        invariant
            a <= n,
            n == value@.len(),
            first_non_ws(value@, 0) == first_non_ws(value@, a as int),
        decreases n - a,
    {
        a = a + 1;
    }
    let mut b: usize = n;
    while b > a && char_is_whitespace(value.get_char(b - 1))
        invariant
            a <= b <= n,
            n == value@.len(),
            first_non_ws(value@, 0) == a,
            a < n ==> !is_whitespace_char(value@[a as int]),
            last_non_ws_end(value@, n as int) == last_non_ws_end(value@, b as int),
        decreases b,
    {
        b = b - 1;
    }
    proof {
        lemma_last_non_ws_end_bounds(value@, b as int);
        if a == b {
            assert(last_non_ws_end(value@, b as int) <= a);
            assert(value@.subrange(a as int, b as int) =~= Seq::<char>::empty());
        } else {
            assert(!is_whitespace_char(value@[b as int - 1]));
            assert(last_non_ws_end(value@, b as int) == b);
        }
    }
    value.substring_char(a, b)
}

/// Index one past the last non-whitespace character of `s.take(i)`, or zero
/// when that prefix is all whitespace.
pub open spec fn last_non_ws_end(s: Seq<char>, i: int) -> int
    decreases i,
{
    if i <= 0 {
        0
    } else if !is_whitespace_char(s[i - 1]) {
        i
    } else {
        last_non_ws_end(s, i - 1)
    }
}

/// Index of the first non-whitespace character of `s` at or after `i`; used
/// to delimit a whitespace run.
pub open spec fn ws_run_end(s: Seq<char>, i: int) -> int
    decreases s.len() - i,
{
    if i < 0 || i >= s.len() || !is_whitespace_char(s[i]) {
        i
    } else {
        ws_run_end(s, i + 1)
    }
}

proof fn lemma_ws_run_end_bounds(s: Seq<char>, i: int)
    requires
        0 <= i <= s.len(),
    ensures
        i <= ws_run_end(s, i) <= s.len(),
    decreases s.len() - i,
{
    if i < s.len() && is_whitespace_char(s[i]) {
        lemma_ws_run_end_bounds(s, i + 1);
    }
}

/// The suffix of `s` from `i` on, with each whitespace run dropped when it
/// sits between a Hangul syllable and a Hangul syllable or sentence
/// punctuation, and kept verbatim otherwise.
pub open spec fn spec_reset_hangul_from(s: Seq<char>, i: int) -> Seq<char>
    decreases s.len() - i,
        when 0 <= i <= s.len()
    via spec_reset_hangul_from_decreases
{
    if i >= s.len() {
        Seq::empty()
    } else if !is_whitespace_char(s[i]) {
        seq![s[i]] + spec_reset_hangul_from(s, i + 1)
    } else {
        let j = ws_run_end(s, i + 1);
        let remove = i > 0 && spec_is_hangul_syllable(s[i - 1]) && j < s.len()
            && spec_is_hangul_or_sentence_punct(s[j]);
        if remove {
            spec_reset_hangul_from(s, j)
        } else {
            s.subrange(i, j) + spec_reset_hangul_from(s, j)
        }
    }
}

#[via_fn]
proof fn spec_reset_hangul_from_decreases(s: Seq<char>, i: int) {
    if 0 <= i < s.len() && is_whitespace_char(s[i]) {
        lemma_ws_run_end_bounds(s, i + 1);
    }
}

/// `s` with whitespace runs between Hangul syllables (or a Hangul syllable
/// and following sentence punctuation) removed, and all other text kept.
pub open spec fn spec_reset_hangul_whitespace(s: Seq<char>) -> Seq<char> {
    spec_reset_hangul_from(s, 0)
}

/// Collapses whitespace that separates Hangul syllables: a whitespace run is
/// dropped exactly when the character before it is a Hangul syllable and the
/// character after it is a Hangul syllable or sentence punctuation;
/// boundaries that touch other scripts keep their whitespace.
pub fn reset_hangul_whitespace(text: &str) -> (r: String)
    ensures
        r@ == spec_reset_hangul_whitespace(text@),
{
    let n = text.unicode_len();
    let mut out = String::new();
    let mut i: usize = 0;
    while i < n
        invariant
            i <= n,
            n == text@.len(),
            spec_reset_hangul_from(text@, 0) == out@ + spec_reset_hangul_from(text@, i as int),
        decreases n - i,
    {
        let c = text.get_char(i);
        if !char_is_whitespace(c) {
            let piece = text.substring_char(i, i + 1);
            proof {
                assert(piece@ =~= seq![text@[i as int]]);
                assert(out@ + (seq![text@[i as int]] + spec_reset_hangul_from(
                    text@,
                    i as int + 1,
                )) =~= (out@ + piece@) + spec_reset_hangul_from(text@, i as int + 1));
            }
            out.append(piece);
            i = i + 1;
        } else {
            let start = i;
            let mut j = i + 1;
            while j < n && char_is_whitespace(text.get_char(j))
                invariant
                    start < j <= n,
                    n == text@.len(),
                    ws_run_end(text@, start as int + 1) == ws_run_end(text@, j as int),
                decreases n - j,
            {
                j = j + 1;
            }
            proof {
                assert(ws_run_end(text@, j as int) == j);
            }
            let remove = if start > 0 && j < n {
                let prev = text.get_char(start - 1);
                let next = text.get_char(j);
                is_hangul_syllable(prev) && is_hangul_or_sentence_punct(next)
            } else {
                false
            };
            if !remove {
                let piece = text.substring_char(start, j);
                proof {
                    assert(out@ + (text@.subrange(start as int, j as int)
                        + spec_reset_hangul_from(text@, j as int)) =~= (out@ + piece@)
                        + spec_reset_hangul_from(text@, j as int));
                }
                out.append(piece);
            }
            i = j;
        }
    }
    proof {
        assert(out@ + spec_reset_hangul_from(text@, n as int) =~= out@);
    }
    out
}

/// Appends a terminating NUL to a UTF-16 unit sequence, rejecting input that
/// already contains an interior NUL.
pub fn to_c16_null_terminated(value: &[u16]) -> (r: Result<Vec<u16>>)
    ensures
        match r {
            Ok(v) => v@ == value@.push(0) && (forall|i: int|
                0 <= i < value@.len() ==> value@[i] != 0),
            Err(e) => (exists|i: int| 0 <= i < value@.len() && value@[i] == 0) && e
                is InvalidArgument,
        },
{
    let n = value.len();
    let mut out: Vec<u16> = Vec::new();
    let mut i: usize = 0;
    while i < n
        invariant
            i <= n,
            n == value@.len(),
            out@ == value@.take(i as int),
            forall|j: int| 0 <= j < i ==> value@[j] != 0,
        decreases n - i,
    {
        let unit = value[i];
        if unit == 0 {
            return Err(
                KiwiError::InvalidArgument(
                    String::from_str("UTF-16 input must not contain interior NUL"),
                ),
            );
        }
        out.push(unit);
        i = i + 1;
    }
    out.push(0);
    proof {
        assert(value@.take(n as int) =~= value@);
    }
    Ok(out)
}

/// The last non-whitespace character of `s` exists and is an ASCII letter or
/// digit.
pub open spec fn spec_ends_with_ascii_word(s: Seq<char>) -> bool {
    let e = last_non_ws_end(s, s.len() as int);
    e > 0 && is_ascii_alnum_char(s[e - 1])
}

/// Reports whether the last non-whitespace character of `value` is an ASCII
/// letter or digit.
pub fn ends_with_ascii_word(value: &str) -> (r: bool)
    ensures
        r == spec_ends_with_ascii_word(value@),
{
    let n = value.unicode_len();
    let mut i: usize = n;
    while i > 0
        invariant
            i <= n,
            n == value@.len(),
            last_non_ws_end(value@, n as int) == last_non_ws_end(value@, i as int),
        decreases i,
    {
        let c = value.get_char(i - 1);
        if !char_is_whitespace(c) {
            return char_is_ascii_alnum(c);
        }
        i = i - 1;
    }
    false
}

} // verus!
