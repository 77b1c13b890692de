//! Sentence and sub-sentence segmentation: grouping a flat token stream by
//! sentence index into span-annotated sentence structures, with optional
//! clause-level sub-sentences.

use crate::chars::{build_char_to_byte_map, is_char_byte_map, slice_char_range,
    spec_slice_char_range};
use crate::spacing::{spec_token_end, token_end};
use crate::types::{Sentence, Token};
use vstd::prelude::*;
use vstd::string::StrSliceExecFns;

verus! {

/// Strictly ascending, hence duplicate-free.
pub open spec fn sorted_unique(ids: Seq<usize>) -> bool {
    forall|i: int, j: int| 0 <= i < j < ids.len() ==> ids[i] < ids[j]
}

/// Inserts `id` into a sorted duplicate-free sequence, keeping it sorted and
/// duplicate-free.
pub open spec fn insert_sorted_unique(ids: Seq<usize>, id: usize) -> Seq<usize>
    decreases ids.len(),
{
    if ids.len() == 0 {
        seq![id]
    } else if id < ids[0] {
        seq![id] + ids
    } else if id == ids[0] {
        ids
    } else {
        seq![ids[0]] + insert_sorted_unique(ids.drop_first(), id)
    }
}

/// The sorted duplicate-free sequence of the sentence indices of the first
/// `i` tokens.
pub open spec fn sent_ids_upto(tokens: Seq<Token>, i: int) -> Seq<usize>
    decreases i,
{
    if i <= 0 {
        Seq::empty()
    } else {
        insert_sorted_unique(sent_ids_upto(tokens, i - 1), tokens[i - 1].sent_position)
    }
}

/// The sorted duplicate-free sequence of all sentence indices occurring in
/// the token list.
pub open spec fn spec_sent_ids(tokens: Seq<Token>) -> Seq<usize> {
    sent_ids_upto(tokens, tokens.len() as int)
}

/// The tokens of one sentence: those with the given sentence index, in
/// their original order.
pub open spec fn sent_group(tokens: Seq<Token>, id: usize) -> Seq<Token> {
    tokens.filter(|t: Token| t.sent_position == id)
}

pub proof fn lemma_insert_sorted_unique_props(ids: Seq<usize>, id: usize)
    requires
        sorted_unique(ids),
    ensures
        sorted_unique(insert_sorted_unique(ids, id)),
        forall|x: usize|
            #[trigger] insert_sorted_unique(ids, id).contains(x) <==> (ids.contains(x) || x
                == id),
        insert_sorted_unique(ids, id).len() >= ids.len(),
    decreases ids.len(),
{
    let res = insert_sorted_unique(ids, id);
    if ids.len() == 0 {
        assert forall|x: usize| res.contains(x) implies (ids.contains(x) || x == id) by {
            let k = choose|k: int| 0 <= k < res.len() && res[k] == x;
            assert(res[k] == id);
        }
        assert(res =~= seq![id]);
        assert(res[0] == id);
        assert(res.contains(id));
    } else if id < ids[0] {
        assert forall|x: usize| (ids.contains(x) || x == id) implies res.contains(x) by {
            if x == id {
                assert(res[0] == id);
            } else {
                let k = choose|k: int| 0 <= k < ids.len() && ids[k] == x;
                assert(res[k + 1] == x);
            }
        }
        assert forall|x: usize| res.contains(x) implies (ids.contains(x) || x == id) by {
            let k = choose|k: int| 0 <= k < res.len() && res[k] == x;
            if k > 0 {
                assert(ids[k - 1] == x);
            }
        }
    } else if id == ids[0] {
        assert(ids.contains(id));
    } else {
        let rest = ids.drop_first();
        assert(sorted_unique(rest));
        lemma_insert_sorted_unique_props(rest, id);
        let sub = insert_sorted_unique(rest, id);
        assert forall|i: int, j: int| 0 <= i < j < res.len() implies res[i] < res[j] by {
            if i == 0 {
                assert(res[j] == sub[j - 1]);
                assert(sub.contains(sub[j - 1]));
                if rest.contains(sub[j - 1]) {
                    let k = choose|k: int| 0 <= k < rest.len() && rest[k] == sub[j - 1];
                    assert(ids[k + 1] == rest[k]);
                    assert(ids[0] < ids[k + 1]);
                } else {
                    assert(sub[j - 1] == id);
                }
            } else {
                assert(res[i] == sub[i - 1] && res[j] == sub[j - 1]);
            }
        }
        assert forall|x: usize| res.contains(x) implies (ids.contains(x) || x == id) by {
            let k = choose|k: int| 0 <= k < res.len() && res[k] == x;
            if k == 0 {
                assert(ids[0] == x);
            } else {
                assert(sub[k - 1] == x);
                assert(sub.contains(x));
                if rest.contains(x) {
                    let m = choose|m: int| 0 <= m < rest.len() && rest[m] == x;
                    assert(ids[m + 1] == x);
                }
            }
        }
        assert forall|x: usize| (ids.contains(x) || x == id) implies res.contains(x) by {
            if x == id {
                assert(insert_sorted_unique(rest, id).contains(x));
                let m = choose|m: int| 0 <= m < sub.len() && sub[m] == x;
                assert(res[m + 1] == x);
            } else {
                let k = choose|k: int| 0 <= k < ids.len() && ids[k] == x;
                if k == 0 {
                    assert(res[0] == x);
                } else {
                    assert(rest[k - 1] == x);
                    assert(rest.contains(x));
                    assert(sub.contains(x));
                    let m = choose|m: int| 0 <= m < sub.len() && sub[m] == x;
                    assert(res[m + 1] == x);
                }
            }
        }
    }
}

pub proof fn lemma_sent_ids_upto_props(tokens: Seq<Token>, i: int)
    requires
        0 <= i <= tokens.len(),
    ensures
        sorted_unique(sent_ids_upto(tokens, i)),
        forall|x: usize|
            #[trigger] sent_ids_upto(tokens, i).contains(x) <==> exists|j: int|
                0 <= j < i && #[trigger] tokens[j].sent_position == x,
    decreases i,
{
    if i > 0 {
        let prev = sent_ids_upto(tokens, i - 1);
        let tid = tokens[i - 1].sent_position;
        lemma_sent_ids_upto_props(tokens, i - 1);
        lemma_insert_sorted_unique_props(prev, tid);
        assert(sent_ids_upto(tokens, i) == insert_sorted_unique(prev, tid));
        assert forall|x: usize| sent_ids_upto(tokens, i).contains(x) implies exists|j: int|
            0 <= j < i && #[trigger] tokens[j].sent_position == x by {
            assert(insert_sorted_unique(prev, tid).contains(x));
            if prev.contains(x) {
                let j = choose|j: int| 0 <= j < i - 1 && #[trigger] tokens[j].sent_position == x;
                assert(tokens[j].sent_position == x);
            } else {
                assert(x == tid);
                assert(tokens[i - 1].sent_position == x);
            }
        }
        assert forall|x: usize|
            exists|j: int| 0 <= j < i && #[trigger] tokens[j].sent_position == x implies sent_ids_upto(
            tokens,
            i,
        ).contains(x) by {
            let j = choose|j: int| 0 <= j < i && #[trigger] tokens[j].sent_position == x;
            if j < i - 1 {
                assert(prev.contains(x));
            } else {
                assert(x == tid);
            }
            assert(insert_sorted_unique(prev, tid).contains(x));
        }
    }
}

/// Inserting an element that a sorted sequence already holds leaves it
/// unchanged; otherwise it goes in at the position that keeps the order.
proof fn lemma_insert_sorted_unique_at(ids: Seq<usize>, id: usize, p: int)
    requires
        sorted_unique(ids),
        0 <= p <= ids.len(),
        forall|j: int| 0 <= j < p ==> ids[j] < id,
        p < ids.len() ==> id <= ids[p],
    ensures
        p < ids.len() && ids[p] == id ==> insert_sorted_unique(ids, id) == ids,
        (p == ids.len() || ids[p] != id) ==> insert_sorted_unique(ids, id) =~= ids.take(p)
            + seq![id] + ids.skip(p),
    decreases ids.len(),
{
    if ids.len() == 0 {
        assert(insert_sorted_unique(ids, id) =~= ids.take(0) + seq![id] + ids.skip(0));
    } else if p == 0 {
        if id < ids[0] {
            assert(insert_sorted_unique(ids, id) =~= ids.take(0) + seq![id] + ids.skip(0));
        } else {
            assert(id == ids[0]);
        }
    } else {
        let rest = ids.drop_first();
        assert(sorted_unique(rest));
        lemma_insert_sorted_unique_at(rest, id, p - 1);
        if p < ids.len() && ids[p] == id {
            assert(rest[p - 1] == id);
            assert(insert_sorted_unique(ids, id) =~= seq![ids[0]] + rest);
            assert(seq![ids[0]] + rest =~= ids);
        } else {
            assert(insert_sorted_unique(ids, id) =~= seq![ids[0]] + (rest.take(p - 1) + seq![id]
                + rest.skip(p - 1)));
            assert(seq![ids[0]] + (rest.take(p - 1) + seq![id] + rest.skip(p - 1)) =~= ids.take(p)
                + seq![id] + ids.skip(p));
        }
    }
}

/// Collects the distinct sentence indices of `tokens`, in ascending order.
fn collect_sent_ids(tokens: &Vec<Token>) -> (ids: Vec<usize>)
    ensures
        ids@ == spec_sent_ids(tokens@),
        sorted_unique(ids@),
{
    let n = tokens.len();
    let mut ids: Vec<usize> = Vec::new();
    let mut i: usize = 0;
    while i < n
        invariant
            i <= n,
            n == tokens@.len(),
            ids@ == sent_ids_upto(tokens@, i as int),
            sorted_unique(ids@),
        decreases n - i,
    {
        let id = tokens[i].sent_position;
        let m = ids.len();
        let mut p: usize = 0;
        while p < m && ids[p] < id
            invariant
                p <= m,
                m == ids@.len(),
                forall|j: int| 0 <= j < p ==> ids@[j] < id,
            decreases m - p,
        {
            p = p + 1;
        }
        proof {
            lemma_insert_sorted_unique_at(ids@, id, p as int);
        }
        if p < m && ids[p] == id {
            // already present
        } else {
            ids.insert(p, id);
            proof {
                assert(ids@ =~= sent_ids_upto(tokens@, i as int).take(p as int) + seq![id]
                    + sent_ids_upto(tokens@, i as int).skip(p as int));
                lemma_insert_sorted_unique_props(sent_ids_upto(tokens@, i as int), id);
            }
        }
        i = i + 1;
    }
    ids
}

/// Collects the tokens with the given sentence index, in order.
fn collect_group(tokens: &Vec<Token>, id: usize) -> (group: Vec<Token>)
    ensures
        group@ == sent_group(tokens@, id),
{
    let n = tokens.len();
    let mut group: Vec<Token> = Vec::new();
    let mut i: usize = 0;
    proof {
        reveal_with_fuel(Seq::<_>::filter, 1);
        assert(tokens@.take(0) =~= Seq::<Token>::empty());
    }
    while i < n
        invariant
            i <= n,
            n == tokens@.len(),
            group@ == sent_group(tokens@.take(i as int), id),
        decreases n - i,
    {
        proof {
            reveal_with_fuel(Seq::<_>::filter, 1);
            let t1 = tokens@.take(i as int + 1);
            assert(t1.drop_last() =~= tokens@.take(i as int));
            assert(t1.last() == tokens@[i as int]);
        }
        if tokens[i].sent_position == id {
            group.push(tokens[i].clone());
        }
        i = i + 1;
    }
    proof {
        assert(tokens@.take(n as int) =~= tokens@);
    }
    group
}

/// The spec-level value of a sub-sentence: its text, span and optional
/// token payload.
pub struct SubView {
    /// Text slice of the sub-sentence.
    pub text: Seq<char>,
    /// Character start offset.
    pub start: usize,
    /// Character end offset.
    pub end: usize,
    /// Token payload when requested.
    pub tokens: Option<Seq<Token>>,
}

/// The spec-level value of an executable sentence record, ignoring nesting.
pub open spec fn sub_view(s: Sentence) -> SubView {
    SubView {
        text: s.text@,
        start: s.start,
        end: s.end,
        tokens: match s.tokens {
            Some(v) => Some(v@),
            None => None,
        },
    }
}

/// Closes an open sub-sentence run into its spec-level record.
pub open spec fn close_run(
    text: Seq<char>,
    start: usize,
    end: usize,
    toks: Seq<Token>,
    return_tokens: bool,
) -> SubView {
    SubView {
        text: spec_slice_char_range(text, start as int, end as int),
        start,
        end,
        tokens: if return_tokens {
            Some(toks)
        } else {
            None
        },
    }
}

/// The sub-sentence records of one sentence's tokens, from token `i` on,
/// with `cur` the open run (its sub-sentence index, span and tokens) and
/// `out` the records closed so far.
///
/// A token with sub-sentence index zero closes any open run without opening
/// a new one; a nonzero index extends the run with the same index or closes
/// it and opens a new run.
pub open spec fn spec_subs_from(
    text: Seq<char>,
    toks: Seq<Token>,
    i: int,
    cur: Option<(usize, usize, usize, Seq<Token>)>,
    out: Seq<SubView>,
    return_tokens: bool,
) -> Seq<SubView>
    decreases toks.len() - i,
{
    if i < 0 || i >= toks.len() {
        match cur {
            Some(c) => out.push(close_run(text, c.1, c.2, c.3, return_tokens)),
            None => out,
        }
    } else {
        let t = toks[i];
        let sid = t.sub_sent_position;
        if sid == 0 {
            match cur {
                Some(c) => spec_subs_from(
                    text,
                    toks,
                    i + 1,
                    None,
                    out.push(close_run(text, c.1, c.2, c.3, return_tokens)),
                    return_tokens,
                ),
                None => spec_subs_from(text, toks, i + 1, None, out, return_tokens),
            }
        } else {
            match cur {
                Some(c) => if c.0 == sid {
                    spec_subs_from(
                        text,
                        toks,
                        i + 1,
                        Some((c.0, c.1, spec_token_end(t), c.3.push(t))),
                        out,
                        return_tokens,
                    )
                } else {
                    spec_subs_from(
                        text,
                        toks,
                        i + 1,
                        Some((sid, t.position, spec_token_end(t), seq![t])),
                        out.push(close_run(text, c.1, c.2, c.3, return_tokens)),
                        return_tokens,
                    )
                },
                None => spec_subs_from(
                    text,
                    toks,
                    i + 1,
                    Some((sid, t.position, spec_token_end(t), seq![t])),
                    out,
                    return_tokens,
                ),
            }
        }
    }
}

/// The sub-sentence records of one sentence's tokens: maximal runs of equal
/// nonzero sub-sentence index, each with its span and text.
pub open spec fn spec_sub_sentences(
    text: Seq<char>,
    toks: Seq<Token>,
    return_tokens: bool,
) -> Seq<SubView> {
    spec_subs_from(text, toks, 0, None, Seq::empty(), return_tokens)
}

/// Splits one sentence's tokens into clause-level sub-sentences: contiguous
/// runs of equal nonzero sub-sentence index, each with its own span and
/// text; index zero closes any open run without starting one.
pub fn build_sub_sentences_from_tokens(
    text: &str,
    map: &[usize],
    sentence_tokens: &[Token],
    return_tokens: bool,
) -> (r: Vec<Sentence>)
    requires
        is_char_byte_map(map@, text@),
    ensures
        r@.map_values(|s: Sentence| sub_view(s)) == spec_sub_sentences(
            text@,
            sentence_tokens@,
            return_tokens,
        ),
        forall|k: int| 0 <= k < r@.len() ==> (#[trigger] r@[k]).subs is None,
{
    let n = sentence_tokens.len();
    let mut out: Vec<Sentence> = Vec::new();
    let mut current_sub_id: usize = 0;
    let mut current_start: usize = 0;
    let mut current_end: usize = 0;
    let mut current_tokens: Vec<Token> = Vec::new();
    let mut i: usize = 0;
    proof {
        assert(out@.map_values(|s: Sentence| sub_view(s)) =~= Seq::<SubView>::empty());
    }
    while i < n
        invariant
            i <= n,
            n == sentence_tokens@.len(),
            is_char_byte_map(map@, text@),
            current_sub_id == 0 ==> current_tokens@.len() == 0,
            spec_subs_from(text@, sentence_tokens@, 0, None, Seq::empty(), return_tokens)
                == spec_subs_from(
                text@,
                sentence_tokens@,
                i as int,
                if current_sub_id == 0 {
                    None
                } else {
                    Some((current_sub_id, current_start, current_end, current_tokens@))
                },
                out@.map_values(|s: Sentence| sub_view(s)),
                return_tokens,
            ),
            forall|k: int| 0 <= k < out@.len() ==> (#[trigger] out@[k]).subs is None,
        decreases n - i,
    {
        let token = &sentence_tokens[i];
        let sid = token.sub_sent_position;
        if sid == 0 {
            if current_sub_id != 0 {
                let ghost closed_view = current_tokens@;
                let closed_tokens = current_tokens;
                current_tokens = Vec::new();
                let sentence = close_sentence(
                    text,
                    map,
                    current_start,
                    current_end,
                    closed_tokens,
                    return_tokens,
                );
                proof {
                    lemma_map_values_push(
                        out@,
                        sentence,
                        close_run(text@, current_start, current_end, closed_view, return_tokens),
                    );
                }
                out.push(sentence);
                current_sub_id = 0;
            }
        } else {
            if current_sub_id == sid {
                current_end = token_end(token);
                current_tokens.push(token.clone());
            } else {
                if current_sub_id != 0 {
                    let ghost closed_view = current_tokens@;
                    let closed_tokens = current_tokens;
                    current_tokens = Vec::new();
                    let sentence = close_sentence(
                        text,
                        map,
                        current_start,
                        current_end,
                        closed_tokens,
                        return_tokens,
                    );
                    proof {
                        lemma_map_values_push(
                            out@,
                            sentence,
                            close_run(
                                text@,
                                current_start,
                                current_end,
                                closed_view,
                                return_tokens,
                            ),
                        );
                    }
                    out.push(sentence);
                }
                current_sub_id = sid;
                current_start = token.position;
                current_end = token_end(token);
                current_tokens.push(token.clone());
                proof {
                    assert(current_tokens@ =~= seq![sentence_tokens@[i as int]]);
                }
            }
        }
        i = i + 1;
    }
    if current_sub_id != 0 {
        let ghost closed_view = current_tokens@;
        let closed_tokens = current_tokens;
        let sentence = close_sentence(
            text,
            map,
            current_start,
            current_end,
            closed_tokens,
            return_tokens,
        );
        proof {
            lemma_map_values_push(
                out@,
                sentence,
                close_run(text@, current_start, current_end, closed_view, return_tokens),
            );
        }
        out.push(sentence);
    }
    out
}

/// Builds the executable sentence record for one closed run.
fn close_sentence(
    text: &str,
    map: &[usize],
    start: usize,
    end: usize,
    toks: Vec<Token>,
    return_tokens: bool,
) -> (s: Sentence)
    requires
        is_char_byte_map(map@, text@),
    ensures
        sub_view(s) == close_run(text@, start, end, toks@, return_tokens),
        s.subs is None,
        s.start == start,
        s.end == end,
{
    let slice = slice_char_range(text, map, start, end);
    Sentence {
        text: slice.to_owned(),
        start,
        end,
        tokens: if return_tokens {
            Some(toks)
        } else {
            None
        },
        subs: None,
    }
}

proof fn lemma_map_values_push(out: Seq<Sentence>, s: Sentence, v: SubView)
    requires
        sub_view(s) == v,
    ensures
        out.push(s).map_values(|x: Sentence| sub_view(x)) == out.map_values(
            |x: Sentence| sub_view(x),
        ).push(v),
{
    assert(out.push(s).map_values(|x: Sentence| sub_view(x)) =~= out.map_values(
        |x: Sentence| sub_view(x),
    ).push(v));
}

/// Every token of a group lies inside the span `[start, end)` computed for
/// it.
pub open spec fn covers_group(s: Sentence, group: Seq<Token>) -> bool {
    &&& forall|j: int| 0 <= j < group.len() ==> s.start <= (#[trigger] group[j]).position
    &&& forall|j: int| 0 <= j < group.len() ==> spec_token_end(#[trigger] group[j]) <= s.end
}

/// What `build_sentences_from_tokens` guarantees of the sentence built for
/// one sentence index: its span is the tightest cover of its tokens, its
/// text is the corresponding slice, and the optional payloads are present
/// exactly when requested.
pub open spec fn sentence_ok(
    s: Sentence,
    text: Seq<char>,
    tokens: Seq<Token>,
    id: usize,
    return_tokens: bool,
    return_sub_sents: bool,
) -> bool {
    let group = sent_group(tokens, id);
    &&& covers_group(s, group)
    &&& (exists|j: int| 0 <= j < group.len() && (#[trigger] group[j]).position == s.start)
    &&& (exists|j: int| 0 <= j < group.len() && spec_token_end(#[trigger] group[j]) == s.end)
    &&& s.text@ == spec_slice_char_range(text, s.start as int, s.end as int)
    &&& match s.tokens {
        Some(v) => return_tokens && v@ == group,
        None => !return_tokens,
    }
    &&& match s.subs {
        Some(v) => {
            &&& return_sub_sents
            &&& v@.map_values(|x: Sentence| sub_view(x)) == spec_sub_sentences(
                text,
                group,
                return_tokens,
            )
            &&& forall|k: int| 0 <= k < v@.len() ==> (#[trigger] v@[k]).subs is None
        },
        None => !return_sub_sents,
    }
}

/// Groups a flat token stream into sentences by sentence index (ascending),
/// computing each sentence's tightest character span, its text slice, and
/// optionally its tokens and clause-level sub-sentences. An empty token
/// list yields an empty sentence list.
pub fn build_sentences_from_tokens(
    text: &str,
    tokens: Vec<Token>,
    return_tokens: bool,
    return_sub_sents: bool,
) -> (r: Vec<Sentence>)
    ensures
        r@.len() == spec_sent_ids(tokens@).len(),
        forall|k: int|
            0 <= k < r@.len() ==> sentence_ok(
                #[trigger] r@[k],
                text@,
                tokens@,
                spec_sent_ids(tokens@)[k],
                return_tokens,
                return_sub_sents,
            ),
{
    let n = tokens.len();
    if n == 0 {
        let r: Vec<Sentence> = Vec::new();
        return r;
    }
    let map = build_char_to_byte_map(text);
    let ids = collect_sent_ids(&tokens);
    let mut out: Vec<Sentence> = Vec::new();
    let m = ids.len();
    let mut k: usize = 0;
    while k < m
        invariant
            k <= m,
            m == spec_sent_ids(tokens@).len(),
            ids@ == spec_sent_ids(tokens@),
            is_char_byte_map(map@, text@),
            n == tokens@.len(),
            out@.len() == k,
            forall|q: int|
                0 <= q < k ==> sentence_ok(
                    #[trigger] out@[q],
                    text@,
                    tokens@,
                    spec_sent_ids(tokens@)[q],
                    return_tokens,
                    return_sub_sents,
                ),
        decreases m - k,
    {
        let id = ids[k];
        proof {
            lemma_sent_ids_upto_props(tokens@, n as int);
            assert(ids@[k as int] == id);
            assert(ids@.contains(id));
            let j = choose|j: int| 0 <= j < n && #[trigger] tokens@[j].sent_position == id;
            tokens@.lemma_filter_contains(|t: Token| t.sent_position == id, j);
        }
        let group = collect_group(&tokens, id);
        let (start, end) = group_span(&group);
        let subs = if return_sub_sents {
            Some(
                build_sub_sentences_from_tokens(
                    text,
                    map.as_slice(),
                    group.as_slice(),
                    return_tokens,
                ),
            )
        } else {
            None
        };
        let slice = slice_char_range(text, map.as_slice(), start, end);
        let sentence = Sentence {
            text: slice.to_owned(),
            start,
            end,
            tokens: if return_tokens {
                Some(group)
            } else {
                None
            },
            subs,
        };
        out.push(sentence);
        k = k + 1;
    }
    out
}

proof fn lemma_filter_element_in_source(s: Seq<Token>, pred: spec_fn(Token) -> bool, j: int)
    requires
        0 <= j < s.filter(pred).len(),
    ensures
        s.contains(s.filter(pred)[j]),
    decreases s.len(),
{
    reveal(Seq::filter);
    if s.len() > 0 {
        let out = s.filter(pred);
        let sub = s.drop_last().filter(pred);
        if pred(s.last()) && j == out.len() - 1 {
            assert(out[j] == s.last());
            assert(s.contains(s.last()));
        } else {
            lemma_filter_element_in_source(s.drop_last(), pred, j);
            let a = choose|a: int| 0 <= a < s.drop_last().len() && s.drop_last()[a] == sub[j];
            assert(s[a] == sub[j]);
            assert(s.contains(s[a]));
        }
    }
}

/// Segmenter span coverage: every sentence's span covers the span of every
/// token assigned to it.
pub proof fn lemma_segmenter_span_coverage(
    s: Sentence,
    text: Seq<char>,
    tokens: Seq<Token>,
    id: usize,
    return_tokens: bool,
    return_sub_sents: bool,
)
    requires
        sentence_ok(s, text, tokens, id, return_tokens, return_sub_sents),
    ensures
        forall|j: int|
            0 <= j < sent_group(tokens, id).len() ==> s.start <= (#[trigger] sent_group(
                tokens,
                id,
            )[j]).position && spec_token_end(sent_group(tokens, id)[j]) <= s.end,
{
}

/// Segmenter span ordering: when the token list is position-sorted with
/// non-overlapping spans and nondecreasing sentence indices, the sentences
/// built for two sentence indices in order have disjoint spans in the same
/// order.
pub proof fn lemma_sentence_spans_ordered(
    text: Seq<char>,
    tokens: Seq<Token>,
    s1: Sentence,
    s2: Sentence,
    k1: int,
    k2: int,
    return_tokens: bool,
    return_sub_sents: bool,
)
    requires
        forall|a: int, b: int|
            0 <= a < b < tokens.len() ==> spec_token_end(#[trigger] tokens[a]) <= (
            #[trigger] tokens[b]).position,
        forall|a: int, b: int|
            0 <= a < b < tokens.len() ==> (#[trigger] tokens[a]).sent_position <= (
            #[trigger] tokens[b]).sent_position,
        0 <= k1 < k2 < spec_sent_ids(tokens).len(),
        sentence_ok(s1, text, tokens, spec_sent_ids(tokens)[k1], return_tokens, return_sub_sents),
        sentence_ok(s2, text, tokens, spec_sent_ids(tokens)[k2], return_tokens, return_sub_sents),
    ensures
        s1.end <= s2.start,
{
    let ids = spec_sent_ids(tokens);
    lemma_sent_ids_upto_props(tokens, tokens.len() as int);
    let id1 = ids[k1];
    let id2 = ids[k2];
    assert(id1 < id2);
    let g1 = sent_group(tokens, id1);
    let g2 = sent_group(tokens, id2);
    let j1 = choose|j: int| 0 <= j < g1.len() && spec_token_end(#[trigger] g1[j]) == s1.end;
    let j2 = choose|j: int| 0 <= j < g2.len() && (#[trigger] g2[j]).position == s2.start;
    lemma_filter_element_in_source(tokens, |t: Token| t.sent_position == id1, j1);
    lemma_filter_element_in_source(tokens, |t: Token| t.sent_position == id2, j2);
    let a = choose|a: int| 0 <= a < tokens.len() && tokens[a] == g1[j1];
    let b = choose|b: int| 0 <= b < tokens.len() && tokens[b] == g2[j2];
    tokens.lemma_filter_pred(|t: Token| t.sent_position == id1, j1);
    tokens.lemma_filter_pred(|t: Token| t.sent_position == id2, j2);
    assert(tokens[a].sent_position == id1);
    assert(tokens[b].sent_position == id2);
    assert(a < b) by {
        if a >= b {
            if a == b {
                assert(id1 == id2);
            } else {
                assert(tokens[b].sent_position <= tokens[a].sent_position);
            }
        }
    }
    assert(spec_token_end(tokens[a]) <= tokens[b].position);
}

/// Computes the tightest span covering a nonempty token group: the least
/// token start and the greatest token end.
fn group_span(group: &Vec<Token>) -> (r: (usize, usize))
    requires
        group@.len() > 0,
    ensures
        forall|j: int| 0 <= j < group@.len() ==> r.0 <= (#[trigger] group@[j]).position,
        forall|j: int| 0 <= j < group@.len() ==> spec_token_end(#[trigger] group@[j]) <= r.1,
        exists|j: int| 0 <= j < group@.len() && (#[trigger] group@[j]).position == r.0,
        exists|j: int| 0 <= j < group@.len() && spec_token_end(#[trigger] group@[j]) == r.1,
{
    let n = group.len();
    let mut start = group[0].position;
    let mut end = token_end(&group[0]);
    let mut j: usize = 1;
    while j < n
        invariant
            1 <= j <= n,
            n == group@.len(),
            forall|q: int| 0 <= q < j ==> start <= (#[trigger] group@[q]).position,
            forall|q: int| 0 <= q < j ==> spec_token_end(#[trigger] group@[q]) <= end,
            exists|q: int| 0 <= q < j && (#[trigger] group@[q]).position == start,
            exists|q: int| 0 <= q < j && spec_token_end(#[trigger] group@[q]) == end,
        decreases n - j,
    {
        let p = group[j].position;
        if p < start {
            start = p;
        }
        let e = token_end(&group[j]);
        if e > end {
            end = e;
        }
        j = j + 1;
    }
    (start, end)
}

} // verus!
