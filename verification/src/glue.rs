//! The chunk glue engine's pure parts: candidate renderings for a chunk
//! pair, the separator decision, and the final assembly of chunks and
//! per-boundary decisions into one string.

use crate::chars::{spec_ends_with_ascii_word, spec_trim, trimmed};
use vstd::prelude::*;
use vstd::string::StringExecFns;

verus! {

/// The character sequences of a string vector.
pub open spec fn strings_view(s: Seq<String>) -> Seq<Seq<char>> {
    s.map_values(|x: String| x@)
}

/// The separator decision for one chunk boundary: a space is inserted when
/// the spaced rendering scores at least as well as the unspaced one, or
/// unconditionally when the left chunk ends in an ASCII letter or digit.
pub open spec fn spec_glue_decision(score_with_space_ge: bool, left: Seq<char>) -> bool {
    score_with_space_ge || spec_ends_with_ascii_word(left)
}

/// Glue determinism: whatever the language-model scores say, a left chunk
/// that ends in an ASCII letter or digit always receives a separator.
pub proof fn lemma_glue_ascii_override(score_with_space_ge: bool, left: Seq<char>)
    requires
        spec_ends_with_ascii_word(left),
    ensures
        spec_glue_decision(score_with_space_ge, left),
{
}

/// The glued text: the chunks in order, with a space or (when requested
/// for that boundary) a newline after chunk `i` exactly when the decision
/// for boundary `i` is true.
pub open spec fn spec_glued_text(
    chunks: Seq<Seq<char>>,
    insertions: Seq<bool>,
    newlines: Option<Seq<bool>>,
) -> Seq<char>
    decreases chunks.len(),
{
    if chunks.len() == 0 {
        Seq::empty()
    } else if chunks.len() == 1 {
        chunks[0]
    } else {
        let sep: Seq<char> = if insertions.len() > 0 && insertions[0] {
            if newlines matches Some(f) && f.len() > 0 && f[0] {
                seq!['\n']
            } else {
                seq![' ']
            }
        } else {
            Seq::empty()
        };
        chunks[0] + sep + spec_glued_text(
            chunks.drop_first(),
            insertions.drop_first(),
            match newlines {
                Some(f) => Some(f.drop_first()),
                None => None,
            },
        )
    }
}

/// The two candidate renderings scored for one chunk pair: the pair joined
/// with a space, and the pair joined directly.
pub fn glue_pair_candidates(left: &str, right: &str) -> (r: (String, String))
    ensures
        r.0@ == left@ + seq![' '] + right@,
        r.1@ == left@ + right@,
{
    let mut with_space = left.to_owned();
    proof {
        reveal_strlit(" ");
        assert(" "@ =~= seq![' ']);
    }
    with_space.append(" ");
    with_space.append(right);
    let mut without_space = left.to_owned();
    without_space.append(right);
    (with_space, without_space)
}

/// Trims every chunk of whitespace.
pub fn trim_chunks(chunks: &[&str]) -> (r: Vec<String>)
    ensures
        r@.len() == chunks@.len(),
        forall|i: int| 0 <= i < r@.len() ==> (#[trigger] r@[i])@ == spec_trim(chunks@[i]@),
{
    let n = chunks.len();
    let mut out: Vec<String> = Vec::new();
    let mut i: usize = 0;
    while i < n
        invariant
            i <= n,
            n == chunks@.len(),
            out@.len() == i,
            forall|j: int| 0 <= j < i ==> (#[trigger] out@[j])@ == spec_trim(chunks@[j]@),
        decreases n - i,
    {
        out.push(trimmed(chunks[i]).to_owned());
        i = i + 1;
    }
    out
}

/// Concatenates the chunks, inserting a space — or a newline where the
/// per-boundary flag asks for one — after each chunk whose boundary
/// decision is true.
pub fn assemble_glued(
    chunks: &Vec<String>,
    insertions: &Vec<bool>,
    newlines: Option<&Vec<bool>>,
) -> (r: String)
    requires
        chunks@.len() >= 1,
        insertions@.len() == chunks@.len() - 1,
        match newlines {
            Some(f) => f@.len() == chunks@.len() - 1,
            None => true,
        },
    ensures
        r@ == spec_glued_text(
            strings_view(chunks@),
            insertions@,
            match newlines {
                Some(f) => Some(f@),
                None => None,
            },
        ),
{
    let n = chunks.len();
    let mut out = String::new();
    let mut i: usize = 0;
    let ghost cv = strings_view(chunks@);
    let ghost nv: Option<Seq<bool>> = match newlines {
        Some(f) => Some(f@),
        None => None,
    };
    proof {
        lemma_glued_text_skip(cv, insertions@, nv, 0);
    }
    while i < n
        invariant
            i <= n,
            n == chunks@.len(),
            n >= 1,
            insertions@.len() == n - 1,
            cv == strings_view(chunks@),
            nv == (match newlines {
                Some(f) => Some(f@),
                None => None,
            }),
            (match nv {
                Some(f) => f.len() == n - 1,
                None => true,
            }),
            spec_glued_text(cv, insertions@, nv) == out@ + spec_glued_text(
                cv.skip(i as int),
                insertions@.skip(i as int),
                match nv {
                    Some(f) => Some(f.skip(i as int)),
                    None => None,
                },
            ),
        decreases n - i,
    {
        out.append(chunks[i].as_str());
        if i + 1 < n {
            if insertions[i] {
                let use_newline = match newlines {
                    Some(flags) => flags[i],
                    None => false,
                };
                if use_newline {
                    proof {
                        reveal_strlit("\n");
                        assert("\n"@ =~= seq!['\n']);
                    }
                    out.append("\n");
                } else {
                    proof {
                        reveal_strlit(" ");
                        assert(" "@ =~= seq![' ']);
                    }
                    out.append(" ");
                }
            }
            proof {
                lemma_glued_step(cv, insertions@, nv, i as int);
            }
        }
        i = i + 1;
    }
    proof {
        assert(cv.skip(n as int) =~= Seq::<Seq<char>>::empty());
        assert(spec_glued_text(
            cv.skip(n as int),
            insertions@.skip(n as int),
            match nv {
                Some(f) => Some(f.skip(n as int)),
                None => None,
            },
        ) =~= Seq::<char>::empty());
        assert(out@ + Seq::<char>::empty() =~= out@);
    }
    out
}

/// Skipping zero items changes nothing.
proof fn lemma_glued_text_skip(cv: Seq<Seq<char>>, ins: Seq<bool>, nv: Option<Seq<bool>>, i: int)
    requires
        i == 0,
    ensures
        spec_glued_text(cv, ins, nv) == spec_glued_text(
            cv.skip(i),
            ins.skip(i),
            match nv {
                Some(f) => Some(f.skip(i)),
                None => None,
            },
        ),
{
    assert(cv.skip(0) =~= cv);
    assert(ins.skip(0) =~= ins);
    match nv {
        Some(f) => {
            assert(f.skip(0) =~= f);
        },
        None => {},
    }
}

/// One step of the assembly: chunk `i`, its separator, then the rest.
proof fn lemma_glued_step(cv: Seq<Seq<char>>, ins: Seq<bool>, nv: Option<Seq<bool>>, i: int)
    requires
        0 <= i < cv.len() - 1,
        ins.len() == cv.len() - 1,
        match nv {
            Some(f) => f.len() == cv.len() - 1,
            None => true,
        },
    ensures
        ({
            let tail = spec_glued_text(
                cv.skip(i + 1),
                ins.skip(i + 1),
                match nv {
                    Some(f) => Some(f.skip(i + 1)),
                    None => None,
                },
            );
            let sep: Seq<char> = if ins[i] {
                if nv matches Some(f) && f[i] {
                    seq!['\n']
                } else {
                    seq![' ']
                }
            } else {
                Seq::empty()
            };
            spec_glued_text(
                cv.skip(i),
                ins.skip(i),
                match nv {
                    Some(f) => Some(f.skip(i)),
                    None => None,
                },
            ) == cv[i] + sep + tail
        }),
{
    let cs = cv.skip(i);
    let is = ins.skip(i);
    assert(cs.len() >= 2);
    assert(cs[0] == cv[i]);
    assert(is[0] == ins[i]);
    assert(cs.drop_first() =~= cv.skip(i + 1));
    assert(is.drop_first() =~= ins.skip(i + 1));
    match nv {
        Some(f) => {
            assert(f.skip(i)[0] == f[i]);
            assert(f.skip(i).drop_first() =~= f.skip(i + 1));
        },
        None => {},
    }
}

} // verus!
