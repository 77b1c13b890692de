//! Minimal JSON field extraction used when resolving release metadata: a
//! string-valued field lookup and an asset-URL search over a release
//! document. Only string scanning lives here; all fetching is done by the
//! surrounding plumbing.

use vstd::prelude::*;
use vstd::string::StrSliceExecFns;

verus! {

/// The first position at or after `from` where `pat` occurs in `s`, if any.
pub open spec fn spec_find_at(s: Seq<char>, pat: Seq<char>, from: int) -> Option<int>
    decreases s.len() - from,
{
    if from < 0 || from + pat.len() > s.len() {
        None
    } else if pat.len() == 0 || s.subrange(from, from + pat.len() as int) == pat {
        Some(from)
    } else {
        spec_find_at(s, pat, from + 1)
    }
}

/// The last position strictly before `upto` where character `c` occurs.
pub open spec fn spec_rfind_before(s: Seq<char>, c: char, upto: int) -> Option<int>
    decreases upto,
{
    if upto <= 0 || upto > s.len() {
        None
    } else if s[upto - 1] == c {
        Some(upto - 1)
    } else {
        spec_rfind_before(s, c, upto - 1)
    }
}

/// ASCII whitespace, as JSON permits between a colon and a value.
pub open spec fn is_ascii_ws(c: char) -> bool {
    c == ' ' || c == '\t' || c == '\n' || c == '\r' || c == '\u{000C}'
}

/// The first position at or after `from` holding a non-whitespace character.
pub open spec fn spec_skip_ws(s: Seq<char>, from: int) -> int
    decreases s.len() - from,
{
    if from < 0 || from >= s.len() {
        s.len() as int
    } else if is_ascii_ws(s[from]) {
        spec_skip_ws(s, from + 1)
    } else {
        from
    }
}

/// The decoded form of one escape character.
pub open spec fn spec_unescape_char(c: char) -> char {
    if c == 'b' {
        '\u{0008}'
    } else if c == 'f' {
        '\u{000C}'
    } else if c == 'n' {
        '\n'
    } else if c == 'r' {
        '\r'
    } else if c == 't' {
        '\t'
    } else {
        c
    }
}

/// Decodes a JSON string body starting at `i`, unescaping single-character
/// escapes, until the closing quote; an unterminated body decodes to
/// nothing.
pub open spec fn spec_decode_string(s: Seq<char>, i: int, acc: Seq<char>) -> Option<Seq<char>>
    decreases s.len() - i,
{
    if i < 0 || i >= s.len() {
        None
    } else if s[i] == '\\' {
        if i + 1 >= s.len() {
            None
        } else {
            spec_decode_string(s, i + 2, acc.push(spec_unescape_char(s[i + 1])))
        }
    } else if s[i] == '"' {
        Some(acc)
    } else {
        spec_decode_string(s, i + 1, acc.push(s[i]))
    }
}

/// The value of the first string-valued occurrence of `field` in the
/// document: the text between the quotes after `"field":`, unescaped, or
/// nothing when the field is missing, not string-valued, or unterminated.
pub open spec fn spec_extract_json_string_field(hay: Seq<char>, field: Seq<char>) -> Option<
    Seq<char>,
> {
    let pat = seq!['"'] + field + seq!['"'];
    match spec_find_at(hay, pat, 0) {
        None => None,
        Some(at) => match spec_find_at(hay, seq![':'], at + pat.len() as int) {
            None => None,
            Some(colon) => {
                let v = spec_skip_ws(hay, colon + 1);
                if v >= hay.len() || hay[v] != '"' {
                    None
                } else {
                    spec_decode_string(hay, v + 1, Seq::empty())
                }
            },
        },
    }
}

/// Finds the first position at or after `from` where `pat` occurs.
fn find_at(s: &str, pat_first: char, pat: &str, from: usize) -> (r: Option<usize>)
    requires
        pat@.len() >= 1,
        pat@[0] == pat_first,
        from <= s@.len(),
    ensures
        match r {
            Some(at) => from <= at && spec_find_at(s@, pat@, from as int) == Some(at as int),
            None => spec_find_at(s@, pat@, from as int) is None,
        },
    decreases s@.len() - from,
{
    let n = s.unicode_len();
    let m = pat.unicode_len();
    if m > n - from {
        return None;
    }
    let mut matched = true;
    let mut j: usize = 0;
    while j < m
        invariant
            j <= m,
            m == pat@.len(),
            n == s@.len(),
            from + m <= n,
            matched ==> forall|q: int| 0 <= q < j ==> s@[from + q] == pat@[q],
            !matched ==> s@.subrange(from as int, from as int + m as int) != pat@,
        decreases m - j,
    {
        if s.get_char(from + j) != pat.get_char(j) {
            matched = false;
            proof {
                assert(s@.subrange(from as int, from as int + m as int)[j as int] != pat@[
                    j as int
                ]);
            }
            j = m;
        } else {
            j = j + 1;
        }
    }
    if matched {
        proof {
            assert(s@.subrange(from as int, from as int + m as int) =~= pat@);
        }
        return Some(from);
    }
    find_at(s, pat_first, pat, from + 1)
}

/// Relies on `String::push`: appends exactly one character.
#[verifier::external_body]
fn push_char(s: &mut String, c: char)
    ensures
        final(s)@ == old(s)@.push(c),
{
    s.push(c);
}

/// Extracts the string value of `field` from a JSON-shaped document: the
/// unescaped text between the quotes after `"field":`, or nothing when the
/// field is missing, not a string, or unterminated.
pub fn extract_json_string_field(haystack: &str, field: &str) -> (r: Option<String>)
    ensures
        match r {
            Some(v) => spec_extract_json_string_field(haystack@, field@) == Some(v@),
            None => spec_extract_json_string_field(haystack@, field@) is None,
        },
{
    let mut pat = String::new();
    proof {
        reveal_strlit("\"");
        assert("\""@ =~= seq!['"']);
    }
    pat.append("\"");
    pat.append(field);
    pat.append("\"");
    proof {
        assert(pat@ =~= seq!['"'] + field@ + seq!['"']);
    }
    let at = match find_at(haystack, '"', pat.as_str(), 0) {
        Some(at) => at,
        None => {
            return None;
        },
    };
    let total = haystack.unicode_len();
    proof {
        lemma_find_at_bounds(haystack@, pat@, 0, at as int);
        assert(at as int + pat@.len() <= total);
        reveal_strlit(":");
        assert(":"@ =~= seq![':']);
    }
    let colon = match find_at(haystack, ':', ":", at + pat.unicode_len()) {
        Some(c) => c,
        None => {
            return None;
        },
    };
    proof {
        lemma_find_at_bounds(haystack@, seq![':'], at as int + pat@.len() as int, colon as int);
    }
    let n = haystack.unicode_len();
    let mut v: usize = colon + 1;
    while v < n && is_ascii_ws_char(haystack.get_char(v))
        invariant
            colon < v <= n,
            n == haystack@.len(),
            spec_skip_ws(haystack@, colon as int + 1) == spec_skip_ws(haystack@, v as int),
        decreases n - v,
    {
        v = v + 1;
    }
    if v >= n || haystack.get_char(v) != '"' {
        return None;
    }
    proof {
        assert(spec_extract_json_string_field(haystack@, field@) == spec_decode_string(
            haystack@,
            v as int + 1,
            Seq::empty(),
        ));
    }
    let mut out = String::new();
    let mut i: usize = v + 1;
    while i < n
        invariant
            v + 1 <= i <= n,
            n == haystack@.len(),
            spec_extract_json_string_field(haystack@, field@) == spec_decode_string(
                haystack@,
                v as int + 1,
                Seq::empty(),
            ),
            spec_decode_string(haystack@, v as int + 1, Seq::empty()) == spec_decode_string(
                haystack@,
                i as int,
                out@,
            ),
        decreases n - i,
    {
        let c = haystack.get_char(i);
        if c == '\\' {
            if i + 1 >= n {
                return None;
            }
            let e = haystack.get_char(i + 1);
            push_char(&mut out, unescape_char(e));
            i = i + 2;
        } else if c == '"' {
            return Some(out);
        } else {
            push_char(&mut out, c);
            i = i + 1;
        }
    }
    None
}

/// Positions returned by the finder lie within the text.
proof fn lemma_find_at_bounds(s: Seq<char>, pat: Seq<char>, from: int, at: int)
    requires
        0 <= from,
        spec_find_at(s, pat, from) == Some(at),
    ensures
        from <= at,
        at + pat.len() <= s.len(),
    decreases s.len() - from,
{
    if from + pat.len() <= s.len() {
        if pat.len() == 0 || s.subrange(from, from + pat.len() as int) == pat {
        } else {
            lemma_find_at_bounds(s, pat, from + 1, at);
        }
    }
}

fn is_ascii_ws_char(c: char) -> (r: bool)
    ensures
        r == is_ascii_ws(c),
{
    c == ' ' || c == '\t' || c == '\n' || c == '\r' || c == '\u{000C}'
}

fn unescape_char(c: char) -> (r: char)
    ensures
        r == spec_unescape_char(c),
{
    if c == 'b' {
        '\u{0008}'
    } else if c == 'f' {
        '\u{000C}'
    } else if c == 'n' {
        '\n'
    } else if c == 'r' {
        '\r'
    } else if c == 't' {
        '\t'
    } else {
        c
    }
}

/// The download URL for the named asset in a release document: around each
/// occurrence of the quoted asset name, the enclosing object's
/// `browser_download_url` field; the search moves past occurrences whose
/// object carries no URL, and stops altogether when no opening brace
/// precedes an occurrence.
pub open spec fn spec_find_asset_url(json: Seq<char>, asset: Seq<char>, from: int) -> Option<
    Seq<char>,
>
    decreases json.len() - from,
        when 0 <= from
    via spec_find_asset_url_decreases
{
    let needle = seq!['"'] + asset + seq!['"'];
    match spec_find_at(json, needle, from) {
        None => None,
        Some(at) => match spec_rfind_before(json, '{', at) {
            None => None,
            Some(start) => match spec_find_at(json, seq!['}'], at) {
                None => None,
                Some(close) => {
                    let object = json.subrange(start, close + 1);
                    match spec_extract_json_string_field(
                        object,
                        seq!['b', 'r', 'o', 'w', 's', 'e', 'r', '_', 'd', 'o', 'w', 'n', 'l', 'o', 'a', 'd', '_', 'u', 'r', 'l'],
                    ) {
                        Some(url) => Some(url),
                        None => spec_find_asset_url(json, asset, at + needle.len() as int),
                    }
                },
            },
        },
    }
}

#[via_fn]
proof fn spec_find_asset_url_decreases(json: Seq<char>, asset: Seq<char>, from: int) {
    let needle = seq!['"'] + asset + seq!['"'];
    match spec_find_at(json, needle, from) {
        None => {},
        Some(at) => {
            lemma_find_at_bounds(json, needle, from, at);
        },
    }
}

/// Finds the last `c` strictly before `upto`.
fn rfind_before(s: &str, c: char, upto: usize) -> (r: Option<usize>)
    requires
        upto <= s@.len(),
    ensures
        match r {
            Some(at) => spec_rfind_before(s@, c, upto as int) == Some(at as int),
            None => spec_rfind_before(s@, c, upto as int) is None,
        },
{
    let mut k: usize = upto;
    while k > 0
        invariant
            k <= upto,
            upto <= s@.len(),
            spec_rfind_before(s@, c, upto as int) == spec_rfind_before(s@, c, k as int),
        decreases k,
    {
        if s.get_char(k - 1) == c {
            return Some(k - 1);
        }
        k = k - 1;
    }
    None
}

/// Searches a release document for the download URL of the named asset.
pub fn find_asset_url(release_json: &str, asset_name: &str) -> (r: Option<String>)
    ensures
        match r {
            Some(v) => spec_find_asset_url(release_json@, asset_name@, 0) == Some(v@),
            None => spec_find_asset_url(release_json@, asset_name@, 0) is None,
        },
{
    let mut needle = String::new();
    proof {
        reveal_strlit("\"");
        assert("\""@ =~= seq!['"']);
    }
    needle.append("\"");
    needle.append(asset_name);
    needle.append("\"");
    proof {
        assert(needle@ =~= seq!['"'] + asset_name@ + seq!['"']);
    }
    find_asset_url_from(release_json, asset_name, &needle, 0)
}

fn find_asset_url_from(release_json: &str, asset_name: &str, needle: &String, from: usize) -> (r:
    Option<String>)
    requires
        needle@ == seq!['"'] + asset_name@ + seq!['"'],
        from <= release_json@.len(),
    ensures
        match r {
            Some(v) => spec_find_asset_url(release_json@, asset_name@, from as int) == Some(v@),
            None => spec_find_asset_url(release_json@, asset_name@, from as int) is None,
        },
    decreases release_json@.len() - from,
{
    let n = release_json.unicode_len();
    let at = match find_at(release_json, '"', needle.as_str(), from) {
        Some(at) => at,
        None => {
            return None;
        },
    };
    proof {
        lemma_find_at_bounds(release_json@, needle@, from as int, at as int);
    }
    let start = match rfind_before(release_json, '{', at) {
        Some(s) => s,
        None => {
            return None;
        },
    };
    proof {
        lemma_rfind_before_bounds(release_json@, '{', at as int, start as int);
        reveal_strlit("}");
        assert("}"@ =~= seq!['}']);
    }
    let close = match find_at(release_json, '}', "}", at) {
        Some(c) => c,
        None => {
            return None;
        },
    };
    proof {
        lemma_find_at_bounds(release_json@, seq!['}'], at as int, close as int);
        assert(close as int + 1 <= release_json@.len());
    }
    let object = release_json.substring_char(start, close + 1);
    proof {
        reveal_strlit("browser_download_url");
        assert("browser_download_url"@ =~= seq![
            'b', 'r', 'o', 'w', 's', 'e', 'r', '_', 'd', 'o', 'w', 'n', 'l', 'o', 'a', 'd', '_', 'u', 'r', 'l',
        ]);
    }
    match extract_json_string_field(object, "browser_download_url") {
        Some(url) => Some(url),
        None => {
            proof {
                assert(at + needle@.len() > from);
                assert(at as int + needle@.len() <= release_json@.len());
            }
            find_asset_url_from(release_json, asset_name, needle, at + needle.unicode_len())
        },
    }
}

/// Positions returned by the backwards finder lie before the limit.
proof fn lemma_rfind_before_bounds(s: Seq<char>, c: char, upto: int, at: int)
    requires
        upto <= s.len(),
        spec_rfind_before(s, c, upto) == Some(at),
    ensures
        0 <= at < upto,
    decreases upto,
{
    if upto > 0 && s[upto - 1] != c {
        lemma_rfind_before_bounds(s, c, upto - 1, at);
    }
}

} // verus!
