//! Spacing reconstruction: per-tag insertion/removal rules and the
//! reconstruction walk that turns a raw (possibly unspaced) string plus its
//! top-1 token analysis into a canonically spaced string.

use crate::chars::{
    char_is_whitespace, is_char_byte_map, is_whitespace_char, slice_char_range,
    spec_strip_whitespace, strip_all_whitespace,
};
use crate::types::Token;
use vstd::prelude::*;
use vstd::string::StringExecFns;
use vstd::string::StrSliceExecFns;

verus! {

/// The sequence starts with the one given character.
pub open spec fn sw1(s: Seq<char>, c0: char) -> bool {
    s.len() >= 1 && s[0] == c0
}

/// The sequence starts with the two given characters.
pub open spec fn sw2(s: Seq<char>, c0: char, c1: char) -> bool {
    s.len() >= 2 && s[0] == c0 && s[1] == c1
}

/// The sequence starts with the three given characters.
pub open spec fn sw3(s: Seq<char>, c0: char, c1: char, c2: char) -> bool {
    s.len() >= 3 && s[0] == c0 && s[1] == c1 && s[2] == c2
}

/// The sequence is exactly the one given character.
pub open spec fn eq1(s: Seq<char>, c0: char) -> bool {
    s.len() == 1 && s[0] == c0
}

/// The sequence is exactly the two given characters.
pub open spec fn eq2(s: Seq<char>, c0: char, c1: char) -> bool {
    s.len() == 2 && s[0] == c0 && s[1] == c1
}

/// The sequence is exactly the three given characters.
pub open spec fn eq3(s: Seq<char>, c0: char, c1: char, c2: char) -> bool {
    s.len() == 3 && s[0] == c0 && s[1] == c1 && s[2] == c2
}

fn tag_sw1(s: &str, c0: char) -> (r: bool)
    ensures
        r == sw1(s@, c0),
{
    s.unicode_len() >= 1 && s.get_char(0) == c0
}

fn tag_sw2(s: &str, c0: char, c1: char) -> (r: bool)
    ensures
        r == sw2(s@, c0, c1),
{
    s.unicode_len() >= 2 && s.get_char(0) == c0 && s.get_char(1) == c1
}

fn tag_sw3(s: &str, c0: char, c1: char, c2: char) -> (r: bool)
    ensures
        r == sw3(s@, c0, c1, c2),
{
    s.unicode_len() >= 3 && s.get_char(0) == c0 && s.get_char(1) == c1 && s.get_char(2) == c2
}

fn tag_eq1(s: &str, c0: char) -> (r: bool)
    ensures
        r == eq1(s@, c0),
{
    s.unicode_len() == 1 && s.get_char(0) == c0
}

fn tag_eq2(s: &str, c0: char, c1: char) -> (r: bool)
    ensures
        r == eq2(s@, c0, c1),
{
    s.unicode_len() == 2 && s.get_char(0) == c0 && s.get_char(1) == c1
}

fn tag_eq3(s: &str, c0: char, c1: char, c2: char) -> (r: bool)
    ensures
        r == eq3(s@, c0, c1, c2),
{
    s.unicode_len() == 3 && s.get_char(0) == c0 && s.get_char(1) == c1 && s.get_char(2) == c2
}

/// Tags that may receive a space in front of them: nouns (`N*`), modifiers
/// (`M*`), interjections (`I*`), verb/adjective/auxiliary stems, roots,
/// noun prefixes, and symbol/foreign/Chinese-script/numeral tags.
pub open spec fn spec_is_space_insertable_target(tag: Seq<char>) -> bool {
    sw1(tag, 'N') || sw1(tag, 'M') || sw1(tag, 'I') || sw2(tag, 'V', 'V') || sw2(tag, 'V', 'A')
        || sw2(tag, 'V', 'X') || sw3(tag, 'V', 'C', 'N') || sw2(tag, 'X', 'R') || sw3(
        tag,
        'X',
        'P',
        'N',
    ) || sw2(tag, 'S', 'W') || sw2(tag, 'S', 'L') || sw2(tag, 'S', 'H') || sw2(tag, 'S', 'N')
}

/// Reports whether a token with this tag may have a space inserted before it.
pub fn is_space_insertable_target(tag: &str) -> (r: bool)
    ensures
        r == spec_is_space_insertable_target(tag@),
{
    tag_sw1(tag, 'N') || tag_sw1(tag, 'M') || tag_sw1(tag, 'I') || tag_sw2(tag, 'V', 'V')
        || tag_sw2(tag, 'V', 'A') || tag_sw2(tag, 'V', 'X') || tag_sw3(tag, 'V', 'C', 'N')
        || tag_sw2(tag, 'X', 'R') || tag_sw3(tag, 'X', 'P', 'N') || tag_sw2(tag, 'S', 'W')
        || tag_sw2(tag, 'S', 'L') || tag_sw2(tag, 'S', 'H') || tag_sw2(tag, 'S', 'N')
}

/// The stricter successor set used after numeral or punctuation tags:
/// pronouns, numerals, common/proper nouns, modifiers, interjections,
/// verb/adjective stems, roots, noun prefixes, and symbol/Chinese tags.
pub open spec fn spec_is_space_insertable_target_strict(tag: Seq<char>) -> bool {
    sw1(tag, 'M') || sw1(tag, 'I') || sw2(tag, 'N', 'P') || sw2(tag, 'N', 'R') || sw3(
        tag,
        'N',
        'N',
        'G',
    ) || sw3(tag, 'N', 'N', 'P') || sw2(tag, 'V', 'V') || sw2(tag, 'V', 'A') || sw2(tag, 'V', 'X')
        || sw3(tag, 'V', 'C', 'N') || sw2(tag, 'X', 'R') || sw3(tag, 'X', 'P', 'N') || sw2(
        tag,
        'S',
        'W',
    ) || sw2(tag, 'S', 'H')
}

/// Reports whether this tag is in the stricter space-insertable successor
/// set used after numerals and punctuation.
pub fn is_space_insertable_target_strict(tag: &str) -> (r: bool)
    ensures
        r == spec_is_space_insertable_target_strict(tag@),
{
    tag_sw1(tag, 'M') || tag_sw1(tag, 'I') || tag_sw2(tag, 'N', 'P') || tag_sw2(tag, 'N', 'R')
        || tag_sw3(tag, 'N', 'N', 'G') || tag_sw3(tag, 'N', 'N', 'P') || tag_sw2(tag, 'V', 'V')
        || tag_sw2(tag, 'V', 'A') || tag_sw2(tag, 'V', 'X') || tag_sw3(tag, 'V', 'C', 'N')
        || tag_sw2(tag, 'X', 'R') || tag_sw3(tag, 'X', 'P', 'N') || tag_sw2(tag, 'S', 'W')
        || tag_sw2(tag, 'S', 'H')
}

/// Tags after which a space may be inserted: everything except the
/// punctuation/unknown/prefix/suffix classes (`S*`, `U*`, `W*`, `X*`), with
/// explicit exceptions for roots, suffixes, ellipses and Chinese-han tags.
pub open spec fn spec_is_space_insertable_prev(tag: Seq<char>) -> bool {
    (!(sw1(tag, 'S') || sw1(tag, 'U') || sw1(tag, 'W') || sw1(tag, 'X'))) || sw2(tag, 'X', 'R')
        || sw2(tag, 'X', 'S') || sw2(tag, 'S', 'E') || sw2(tag, 'S', 'H')
}

/// Reports whether a token with this tag may have a space inserted after it.
pub fn is_space_insertable_prev(tag: &str) -> (r: bool)
    ensures
        r == spec_is_space_insertable_prev(tag@),
{
    (!(tag_sw1(tag, 'S') || tag_sw1(tag, 'U') || tag_sw1(tag, 'W') || tag_sw1(tag, 'X')))
        || tag_sw2(tag, 'X', 'R') || tag_sw2(tag, 'X', 'S') || tag_sw2(tag, 'S', 'E') || tag_sw2(
        tag,
        'S',
        'H',
    )
}

/// The auxiliary-verb carve-out: the surface forms of the common auxiliary
/// roots that must stay attached to the preceding verb.
pub open spec fn spec_is_attached_aux_form(tag: Seq<char>, form: Seq<char>) -> bool {
    eq2(tag, 'V', 'X') && (eq1(form, '\u{D558}') || eq1(form, '\u{C9C0}'))
}

/// The tag-pair rule that decides whether a single space is inserted
/// between two adjacent tokens: the auxiliary-verb carve-out wins, then the
/// general predecessor/successor classes, then the stricter successor set
/// after a numeral (`SN`) or punctuation (`SF`, `SP`, `SL`) tag.
pub open spec fn spec_should_insert_space_between(
    prev_tag: Seq<char>,
    tag: Seq<char>,
    form: Seq<char>,
) -> bool {
    if spec_is_attached_aux_form(tag, form) {
        false
    } else {
        (spec_is_space_insertable_prev(prev_tag) && spec_is_space_insertable_target(tag)) || (eq2(
            prev_tag,
            'S',
            'N',
        ) && spec_is_space_insertable_target_strict(tag)) || ((sw2(prev_tag, 'S', 'F') || sw2(
            prev_tag,
            'S',
            'P',
        ) || sw2(prev_tag, 'S', 'L')) && spec_is_space_insertable_target_strict(tag))
    }
}

/// Decides whether a space is inserted between a token with tag `prev_tag`
/// and a following token with tag `tag` and surface form `form`.
pub fn should_insert_space_between(prev_tag: &str, tag: &str, form: &str) -> (r: bool)
    ensures
        r == spec_should_insert_space_between(prev_tag@, tag@, form@),
{
    if tag_eq2(tag, 'V', 'X') && (tag_eq1(form, '\u{D558}') || tag_eq1(form, '\u{C9C0}')) {
        return false;
    }
    (is_space_insertable_prev(prev_tag) && is_space_insertable_target(tag)) || (tag_eq2(
        prev_tag,
        'S',
        'N',
    ) && is_space_insertable_target_strict(tag)) || ((tag_sw2(prev_tag, 'S', 'F') || tag_sw2(
        prev_tag,
        'S',
        'P',
    ) || tag_sw2(prev_tag, 'S', 'L')) && is_space_insertable_target_strict(tag))
}

/// The gap before a token is stripped of whitespace when the token is a
/// dependent ending (`E*`), particle (`J*`) or suffix (`XS*`), when it is an
/// attached auxiliary form, or on a numeral-to-bound-noun transition.
pub open spec fn spec_should_strip_gap(
    prev_tag: Option<Seq<char>>,
    tag: Seq<char>,
    form: Seq<char>,
) -> bool {
    sw1(tag, 'E') || sw1(tag, 'J') || sw2(tag, 'X', 'S') || spec_is_attached_aux_form(tag, form)
        || (prev_tag matches Some(p) && eq2(p, 'S', 'N') && eq3(tag, 'N', 'N', 'B'))
}

/// Decides whether the whitespace of the gap before the current token is
/// removed.
pub fn should_strip_gap(prev_tag: Option<&str>, tag: &str, form: &str) -> (r: bool)
    ensures
        r == spec_should_strip_gap(
            match prev_tag {
                Some(p) => Some(p@),
                None => None,
            },
            tag@,
            form@,
        ),
{
    if tag_sw1(tag, 'E') || tag_sw1(tag, 'J') || tag_sw2(tag, 'X', 'S') {
        return true;
    }
    if tag_eq2(tag, 'V', 'X') && (tag_eq1(form, '\u{D558}') || tag_eq1(form, '\u{C9C0}')) {
        return true;
    }
    match prev_tag {
        Some(p) => tag_eq2(p, 'S', 'N') && tag_eq3(tag, 'N', 'N', 'B'),
        None => false,
    }
}

/// Character end offset of a token, saturating at the machine limit.
pub open spec fn spec_token_end(t: Token) -> usize {
    if t.position + t.length > usize::MAX {
        usize::MAX
    } else {
        (t.position + t.length) as usize
    }
}

/// Returns the character offset one past the end of the token's span.
pub fn token_end(token: &Token) -> (r: usize)
    ensures
        r == spec_token_end(*token),
{
    if token.length > usize::MAX - token.position {
        usize::MAX
    } else {
        token.position + token.length
    }
}

/// One step of the reconstruction walk, starting at token `i` with `last`
/// characters already consumed, `prev` the previous token's tag, and `out`
/// the text produced so far.
///
/// Each step copies the gap before the token (whitespace-stripped when the
/// strip rule fires), inserts a single space when the tag-pair rule fires
/// and the output does not already end in whitespace, and then emits the
/// token itself: its canonical form for a noun-class token whose span does
/// not run into the next token, the whitespace-stripped raw slice otherwise.
/// The trailing text after the last token is appended verbatim.
pub open spec fn spec_reconstruct_from(
    raw: Seq<char>,
    tokens: Seq<Token>,
    i: int,
    last: int,
    prev: Option<Seq<char>>,
    out: Seq<char>,
) -> Seq<char>
    decreases tokens.len() - i,
{
    let text_len = raw.len() as int;
    if i < 0 || i >= tokens.len() {
        if last < text_len {
            out + raw.subrange(if last >= 0 {
                last
            } else {
                0
            }, text_len)
        } else {
            out
        }
    } else {
        let t = tokens[i];
        let start = if t.position <= text_len {
            t.position as int
        } else {
            text_len
        };
        let end = if t.position + t.length <= text_len {
            t.position + t.length
        } else {
            text_len
        };
        let out1 = if last < start {
            let gap = raw.subrange(if last >= 0 {
                last
            } else {
                0
            }, start);
            if spec_should_strip_gap(prev, t.tag@, t.form@) {
                out + spec_strip_whitespace(gap)
            } else {
                out + gap
            }
        } else {
            out
        };
        let last1 = if last < start {
            start
        } else {
            last
        };
        let insert = prev matches Some(p) && spec_should_insert_space_between(p, t.tag@, t.form@)
            && out1.len() > 0 && !is_whitespace_char(out1.last());
        let out2 = if insert {
            out1 + seq![' ']
        } else {
            out1
        };
        let out3 = if last1 < end {
            let piece = if sw2(t.tag@, 'N', 'N') && (i + 1 >= tokens.len() || end
                <= tokens[i + 1].position) {
                t.form@
            } else {
                spec_strip_whitespace(raw.subrange(last1, end))
            };
            out2 + piece
        } else {
            out2
        };
        spec_reconstruct_from(raw, tokens, i + 1, end, Some(t.tag@), out3)
    }
}

/// The canonically spaced reconstruction of `raw` under its token analysis;
/// an empty token list returns the raw text unchanged.
pub open spec fn spec_reconstruct(raw: Seq<char>, tokens: Seq<Token>) -> Seq<char> {
    if tokens.len() == 0 {
        raw
    } else {
        spec_reconstruct_from(raw, tokens, 0, 0, None, Seq::empty())
    }
}

/// Rebuilds `raw` with canonical spacing from its top-1 token analysis,
/// applying the per-tag gap-strip and space-insertion rules.
pub fn reconstruct_spaced_text(raw: &str, tokens: &[Token]) -> (r: String)
    ensures
        r@ == spec_reconstruct(raw@, tokens@),
{
    if tokens.len() == 0 {
        return raw.to_owned();
    }
    let map = build_map(raw);
    let text_len = raw.unicode_len();
    let mut out = String::new();
    let mut last: usize = 0;
    let mut prev_index: Option<usize> = None;
    let n = tokens.len();
    let mut index: usize = 0;
    while index < n
        invariant
            index <= n,
            n == tokens@.len(),
            text_len == raw@.len(),
            is_char_byte_map(map@, raw@),
            last <= text_len,
            match prev_index {
                Some(p) => p < index && index >= 1 && p == index - 1,
                None => index == 0,
            },
            spec_reconstruct_from(raw@, tokens@, 0, 0, None, Seq::empty())
                == spec_reconstruct_from(
                raw@,
                tokens@,
                index as int,
                last as int,
                match prev_index {
                    Some(p) => Some(tokens@[p as int].tag@),
                    None => None,
                },
                out@,
            ),
        decreases n - index,
    {
        let ghost prev_spec: Option<Seq<char>> = match prev_index {
            Some(p) => Some(tokens@[p as int].tag@),
            None => None,
        };
        let token = &tokens[index];
        let start = if token.position <= text_len {
            token.position
        } else {
            text_len
        };
        let end = if token.position <= text_len && token.length <= text_len - token.position {
            token.position + token.length
        } else {
            text_len
        };
        if last < start {
            let gap = slice_char_range(raw, map.as_slice(), last, start);
            proof {
                assert(gap@ =~= raw@.subrange(last as int, start as int));
            }
            let strip = match prev_index {
                Some(p) => should_strip_gap(Some(tokens[p].tag.as_str()), &token.tag, &token.form),
                None => should_strip_gap(None, &token.tag, &token.form),
            };
            if strip {
                let stripped = strip_all_whitespace(gap);
                out.append(stripped.as_str());
            } else {
                out.append(gap);
            }
            last = start;
        }
        let insert = match prev_index {
            Some(p) => {
                if should_insert_space_between(tokens[p].tag.as_str(), &token.tag, &token.form) {
                    ends_in_non_whitespace(out.as_str())
                } else {
                    false
                }
            },
            None => false,
        };
        if insert {
            proof {
                reveal_strlit(" ");
                assert(" "@ =~= seq![' ']);
            }
            out.append(" ");
        }
        if last < end {
            let noun_form = if tag_sw2(&token.tag, 'N', 'N') {
                if index + 1 >= n {
                    true
                } else {
                    end <= tokens[index + 1].position
                }
            } else {
                false
            };
            if noun_form {
                out.append(token.form.as_str());
            } else {
                let piece = slice_char_range(raw, map.as_slice(), last, end);
                proof {
                    assert(piece@ =~= raw@.subrange(last as int, end as int));
                }
                let stripped = strip_all_whitespace(piece);
                out.append(stripped.as_str());
            }
        }
        last = end;
        prev_index = Some(index);
        index = index + 1;
    }
    if last < text_len {
        let tail = slice_char_range(raw, map.as_slice(), last, text_len);
        proof {
            assert(tail@ =~= raw@.subrange(last as int, text_len as int));
        }
        out.append(tail);
    }
    out
}

/// Reports whether the accumulated output is non-empty and does not end in
/// whitespace, the state in which a space may be inserted.
fn ends_in_non_whitespace(s: &str) -> (r: bool)
    ensures
        r == (s@.len() > 0 && !is_whitespace_char(s@.last())),
{
    let n = s.unicode_len();
    if n == 0 {
        false
    } else {
        !char_is_whitespace(s.get_char(n - 1))
    }
}

fn build_map(raw: &str) -> (map: Vec<usize>)
    ensures
        is_char_byte_map(map@, raw@),
{
    crate::chars::build_char_to_byte_map(raw)
}


/// Applies the spacing reconstruction to each normalized line of a batch:
/// a line whose analysis produced no candidate is returned unchanged, as
/// the single-text path does.
pub fn space_many_finish(normalized: Vec<String>, top1: Vec<Option<Vec<Token>>>) -> (r: Vec<
    String,
>)
    requires
        normalized@.len() == top1@.len(),
    ensures
        r@.len() == normalized@.len(),
        forall|i: int|
            0 <= i < r@.len() ==> (#[trigger] r@[i])@ == (match top1@[i] {
                Some(t) => spec_reconstruct(normalized@[i]@, t@),
                None => normalized@[i]@,
            }),
{
    let n = normalized.len();
    let mut out: Vec<String> = Vec::new();
    let mut i: usize = 0;
    while i < n
        invariant
            i <= n,
            n == normalized@.len(),
            n == top1@.len(),
            out@.len() == i,
            forall|j: int|
                0 <= j < i ==> (#[trigger] out@[j])@ == (match top1@[j] {
                    Some(t) => spec_reconstruct(normalized@[j]@, t@),
                    None => normalized@[j]@,
                }),
        decreases n - i,
    {
        match &top1[i] {
            Some(tokens) => {
                out.push(reconstruct_spaced_text(normalized[i].as_str(), tokens.as_slice()));
            },
            None => {
                out.push(normalized[i].clone());
            },
        }
        i = i + 1;
    }
    out
}

} // verus!
