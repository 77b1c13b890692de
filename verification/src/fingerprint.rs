//! Cheap, collision-tolerant text fingerprints used to pre-filter cache
//! equality checks before a full string comparison.

use vstd::prelude::*;
use vstd::string::StringSliceAdditionalSpecFns;
use vstd::utf8::encode_utf8;

verus! {

/// Up to the first eight bytes of `s`, packed into a `u64` with byte `i` at
/// bit position `8 * i`.
pub open spec fn spec_pack_prefix(s: Seq<u8>, n: int) -> u64
    decreases n,
{
    if n <= 0 || n > s.len() {
        0u64
    } else {
        spec_pack_prefix(s, n - 1) | ((s[n - 1] as u64) << (((n - 1) * 8) as u64))
    }
}

/// The packed value of the first eight bytes of `s` (or all of them when `s`
/// is shorter).
pub open spec fn spec_pack_edge(s: Seq<u8>) -> u64 {
    if s.len() < 8 {
        spec_pack_prefix(s, s.len() as int)
    } else {
        spec_pack_prefix(s, 8)
    }
}

/// Packs up to the first eight bytes of `bytes` into a `u64`, low byte
/// first.
pub fn pack_edge(bytes: &[u8]) -> (r: u64)
    ensures
        r == spec_pack_edge(bytes@),
{
    let n = if bytes.len() < 8 {
        bytes.len()
    } else {
        8
    };
    let mut value: u64 = 0;
    let mut i: usize = 0;
    while i < n
        invariant
            i <= n,
            n <= bytes@.len(),
            n <= 8,
            n == if bytes@.len() < 8 {
                bytes@.len() as int
            } else {
                8
            },
            value == spec_pack_prefix(bytes@, i as int),
        decreases n - i,
    {
        value = value | ((bytes[i] as u64) << ((i as u64) * 8));
        i = i + 1;
    }
    value
}

/// A cheap length-plus-edge-bytes fingerprint of a text. Two texts with
/// different fingerprints are certainly different; equal fingerprints say
/// nothing and demand a full comparison.
#[derive(Clone, Copy, Debug, PartialEq, Eq, Structural)]
pub struct TextFingerprint {
    /// Byte length of the text.
    pub len: usize,
    /// The first eight bytes, packed.
    pub head: u64,
    /// The last eight bytes, reversed and packed.
    pub tail: u64,
}

/// The fingerprint of the UTF-8 encoding of a character sequence.
pub open spec fn spec_fingerprint(s: Seq<char>) -> TextFingerprint {
    let bytes = encode_utf8(s);
    TextFingerprint {
        len: bytes.len() as usize,
        head: spec_pack_edge(bytes),
        tail: spec_pack_edge(bytes.reverse()),
    }
}

impl TextFingerprint {
    /// Computes the fingerprint of `text` from its byte length and its first
    /// and last eight bytes.
    pub fn of(text: &str) -> (r: TextFingerprint)
        ensures
            r == spec_fingerprint(text@),
    {
        let bytes = text.as_bytes();
        let len = bytes.len();
        let head = pack_edge(bytes);
        let m = if len < 8 {
            len
        } else {
            8
        };
        let mut rev_tail: Vec<u8> = Vec::new();
        let mut i: usize = 0;
        while i < m
            invariant
                i <= m,
                m <= len,
                len == bytes@.len(),
                rev_tail@.len() == i,
                forall|j: int| 0 <= j < i ==> rev_tail@[j] == bytes@.reverse()[j],
            decreases m - i,
        {
            rev_tail.push(bytes[len - 1 - i]);
            i = i + 1;
        }
        let tail = pack_edge(rev_tail.as_slice());
        proof {
            lemma_pack_edge_prefix_agree(rev_tail@, bytes@.reverse());
        }
        TextFingerprint { len, head, tail }
    }
}

/// Packing reads only the first eight bytes, so a sequence and any extension
/// of it that agree there pack alike.
proof fn lemma_pack_prefix_agree(a: Seq<u8>, b: Seq<u8>, n: int)
    requires
        n <= a.len(),
        n <= b.len(),
        forall|j: int| 0 <= j < n ==> a[j] == b[j],
    ensures
        spec_pack_prefix(a, n) == spec_pack_prefix(b, n),
    decreases n,
{
    if n > 0 {
        lemma_pack_prefix_agree(a, b, n - 1);
    }
}

proof fn lemma_pack_edge_prefix_agree(a: Seq<u8>, b: Seq<u8>)
    requires
        a.len() == if b.len() < 8 {
            b.len() as int
        } else {
            8
        },
        forall|j: int| 0 <= j < a.len() ==> a[j] == b[j],
    ensures
        spec_pack_edge(a) == spec_pack_edge(b),
{
    if b.len() < 8 {
        lemma_pack_prefix_agree(a, b, a.len() as int);
    } else {
        lemma_pack_prefix_agree(a, b, 8);
    }
}

/// The offset basis of the 64-bit FNV-1a hash.
pub const FNV_OFFSET: u64 = 0xcbf29ce484222325;

/// The prime multiplier of the 64-bit FNV-1a hash.
pub const FNV_PRIME: u64 = 0x00000100000001B3;

/// One FNV-1a style mixing step: a zero state is first seeded with the
/// offset basis, then the value is folded in.
pub open spec fn spec_mix_u64(state: u64, value: u64) -> u64 {
    let seeded = if state == 0 {
        FNV_OFFSET
    } else {
        state
    };
    (seeded ^ value).wrapping_mul(FNV_PRIME)
}

/// Folds `value` into the running hash `state` with an FNV-1a style step.
pub fn mix_u64(state: &mut u64, value: u64)
    ensures
        *final(state) == spec_mix_u64(*old(state), value),
{
    if *state == 0 {
        *state = FNV_OFFSET;
    }
    *state = (*state ^ value).wrapping_mul(FNV_PRIME);
}

/// The glue-cache fingerprint of a chunk sequence: the chunk count, each
/// chunk's text fingerprint, and the optional newline-flag vector, all mixed
/// in order.
pub open spec fn spec_glue_fingerprint_chunks(chunks: Seq<Seq<char>>, i: int, state: u64) -> u64
    decreases chunks.len() - i,
{
    if i < 0 || i >= chunks.len() {
        state
    } else {
        let fp = spec_fingerprint(chunks[i]);
        let s1 = spec_mix_u64(state, fp.len as u64);
        let s2 = spec_mix_u64(s1, fp.head);
        let s3 = spec_mix_u64(s2, fp.tail);
        spec_glue_fingerprint_chunks(chunks, i + 1, s3)
    }
}

/// Mixes the newline-flag vector into the running hash: a presence marker,
/// the flag count, then one value per flag.
pub open spec fn spec_glue_fingerprint_flags(flags: Option<Seq<bool>>, state: u64) -> u64 {
    match flags {
        Some(f) => spec_glue_fingerprint_flag_items(
            f,
            0,
            spec_mix_u64(spec_mix_u64(state, 1), f.len() as u64),
        ),
        None => spec_mix_u64(state, 0),
    }
}

/// Folds each flag of the newline vector into the hash in order.
pub open spec fn spec_glue_fingerprint_flag_items(flags: Seq<bool>, i: int, state: u64) -> u64
    decreases flags.len() - i,
{
    if i < 0 || i >= flags.len() {
        state
    } else {
        spec_glue_fingerprint_flag_items(
            flags,
            i + 1,
            spec_mix_u64(state, if flags[i] {
                1
            } else {
                0
            }),
        )
    }
}

/// The fingerprint of a whole glue request: chunk count, per-chunk
/// fingerprints, and the optional newline-flag vector.
pub open spec fn spec_glue_fingerprint(chunks: Seq<Seq<char>>, flags: Option<Seq<bool>>) -> u64 {
    spec_glue_fingerprint_flags(
        flags,
        spec_glue_fingerprint_chunks(chunks, 0, spec_mix_u64(0, chunks.len() as u64)),
    )
}

/// Spec view of a chunk slice: the character sequence of each chunk.
pub open spec fn chunks_view(chunks: Seq<&str>) -> Seq<Seq<char>> {
    chunks.map(|i: int, c: &str| c@)
}

/// Computes the structural fingerprint of a glue request from the chunk
/// list and the optional per-boundary newline flags.
pub fn glue_fingerprint(chunks: &[&str], insert_new_lines: Option<&[bool]>) -> (r: u64)
    ensures
        r == spec_glue_fingerprint(
            chunks_view(chunks@),
            match insert_new_lines {
                Some(f) => Some(f@),
                None => None,
            },
        ),
{
    let cv = Ghost(chunks_view(chunks@));
    let mut state: u64 = 0;
    mix_u64(&mut state, chunks.len() as u64);
    let n = chunks.len();
    let mut i: usize = 0;
    while i < n
        invariant
            i <= n,
            n == chunks@.len(),
            cv@ == chunks_view(chunks@),
            spec_glue_fingerprint_chunks(cv@, 0, spec_mix_u64(0, n as u64))
                == spec_glue_fingerprint_chunks(cv@, i as int, state),
        decreases n - i,
    {
        let fp = TextFingerprint::of(chunks[i]);
        mix_u64(&mut state, fp.len as u64);
        mix_u64(&mut state, fp.head);
        mix_u64(&mut state, fp.tail);
        i = i + 1;
    }
    match insert_new_lines {
        Some(flags) => {
            mix_u64(&mut state, 1);
            mix_u64(&mut state, flags.len() as u64);
            let m = flags.len();
            let mut k: usize = 0;
            while k < m
                invariant
                    k <= m,
                    m == flags@.len(),
                    spec_glue_fingerprint_flag_items(flags@, k as int, state)
                        == spec_glue_fingerprint_flags(
                        Some(flags@),
                        spec_glue_fingerprint_chunks(cv@, 0, spec_mix_u64(0, n as u64)),
                    ),
                decreases m - k,
            {
                mix_u64(&mut state, if flags[k] {
                    1
                } else {
                    0
                });
                k = k + 1;
            }
            state
        },
        None => {
            mix_u64(&mut state, 0);
            state
        },
    }
}

} // verus!
