//! The byte encoding of a challenge set whose values are circuit targets: the number of
//! challenges as eight little-endian bytes, then each challenge as β and γ, in draw order.
//! A target is a tag byte (1 for a wire, 0 for a virtual target) followed by its indices,
//! eight little-endian bytes each.

use vstd::prelude::*;
use crate::challenge::{GrandProductChallenge, GrandProductChallengeSet};

verus! {

/// A value of an arithmetic circuit.
#[derive(Clone, Copy, Debug, PartialEq, Eq, Structural, Hash)]
pub enum Target {
    /// The wire in column `column` of gate row `row`.
    Wire { row: usize, column: usize },
    /// A value with no place in the witness of its own.
    VirtualTarget { index: usize },
}

/// Bytes to read from, and the position of the next byte to read.
pub struct Buffer {
    pub bytes: Vec<u8>,
    pub pos: usize,
}

impl Buffer {
    pub fn new(bytes: Vec<u8>) -> (r: Buffer)
        ensures
            r.bytes == bytes,
            r.pos == 0,
    {
        Buffer { bytes, pos: 0 }
    }
}

/// The bytes ran out, or a tag byte was neither 0 nor 1.
#[derive(Clone, Copy, Debug, PartialEq, Eq, Structural)]
pub struct IoError;

/// The eight little-endian bytes of `n`.
pub open spec fn enc_u64(n: u64) -> Seq<u8> {
    seq![
        (n & 0xff) as u8,
        ((n >> 8) & 0xff) as u8,
        ((n >> 16) & 0xff) as u8,
        ((n >> 24) & 0xff) as u8,
        ((n >> 32) & 0xff) as u8,
        ((n >> 40) & 0xff) as u8,
        ((n >> 48) & 0xff) as u8,
        ((n >> 56) & 0xff) as u8,
    ]
}

/// The number whose eight little-endian bytes start at `p`.
pub open spec fn le_value(b: Seq<u8>, p: int) -> u64 {
    (b[p] as u64) | ((b[p + 1] as u64) << 8) | ((b[p + 2] as u64) << 16) | ((b[p + 3] as u64) << 24)
        | ((b[p + 4] as u64) << 32) | ((b[p + 5] as u64) << 40) | ((b[p + 6] as u64) << 48) | ((b[p + 7] as u64) << 56)
}

pub open spec fn enc_target(t: Target) -> Seq<u8> {
    match t {
        Target::Wire { row, column } => seq![1u8] + enc_u64(row as u64) + enc_u64(column as u64),
        Target::VirtualTarget { index } => seq![0u8] + enc_u64(index as u64),
    }
}

/// The challenges, each as β then γ.
pub open spec fn enc_challenges(s: Seq<GrandProductChallenge<Target>>) -> Seq<u8>
    decreases s.len(),
{
    if s.len() == 0 {
        Seq::empty()
    } else {
        enc_challenges(s.drop_last()) + enc_target(s.last().beta) + enc_target(s.last().gamma)
    }
}

/// The count, then the challenges.
pub open spec fn enc_set(s: Seq<GrandProductChallenge<Target>>) -> Seq<u8> {
    enc_u64(s.len() as u64) + enc_challenges(s)
}

/// Reads eight little-endian bytes at `p`.
pub open spec fn read_u64(b: Seq<u8>, p: int) -> Option<u64> {
    if 0 <= p && p + 8 <= b.len() {
        Some(le_value(b, p))
    } else {
        None
    }
}

/// Reads a target at `p`; gives it and the position after it.
pub open spec fn read_target(b: Seq<u8>, p: int) -> Option<(Target, int)> {
    if p < 0 || p >= b.len() {
        None
    } else if b[p] == 1 {
        match (read_u64(b, p + 1), read_u64(b, p + 9)) {
            (Some(row), Some(column)) => Some((Target::Wire { row: row as usize, column: column as usize }, p + 17)),
            _ => None,
        }
    } else if b[p] == 0 {
        match read_u64(b, p + 1) {
            Some(index) => Some((Target::VirtualTarget { index: index as usize }, p + 9)),
            None => None,
        }
    } else {
        None
    }
}

/// Reads `n` challenges at `p`; gives them and the position after them.
pub open spec fn read_challenges(b: Seq<u8>, p: int, n: nat) -> Option<(Seq<GrandProductChallenge<Target>>, int)>
    decreases n,
{
    if n == 0 {
        Some((Seq::empty(), p))
    } else {
        match read_challenges(b, p, (n - 1) as nat) {
            Some((s, q)) => match read_target(b, q) {
                Some((beta, q1)) => match read_target(b, q1) {
                    Some((gamma, q2)) => Some((s.push(GrandProductChallenge { beta, gamma }), q2)),
                    None => None,
                },
                None => None,
            },
            None => None,
        }
    }
}

/// Reads a count and that many challenges at `p`.
pub open spec fn read_set(b: Seq<u8>, p: int) -> Option<(Seq<GrandProductChallenge<Target>>, int)> {
    match read_u64(b, p) {
        Some(n) => read_challenges(b, p + 8, (n as usize) as nat),
        None => None,
    }
}

/// `b` holds the bytes `e` from position `p` on.
pub open spec fn bytes_at(b: Seq<u8>, p: int, e: Seq<u8>) -> bool {
    &&& 0 <= p
    &&& p + e.len() <= b.len()
    &&& forall|i: int| 0 <= i < e.len() ==> b[p + i] == #[trigger] e[i]
}

proof fn lemma_read_u64_of(b: Seq<u8>, p: int, n: u64)
    requires
        bytes_at(b, p, enc_u64(n)),
    ensures
        read_u64(b, p) == Some(n),
{
    let e = enc_u64(n);
    assert(b[p] == e[0] && b[p + 1] == e[1] && b[p + 2] == e[2] && b[p + 3] == e[3]);
    assert(b[p + 4] == e[4] && b[p + 5] == e[5] && b[p + 6] == e[6] && b[p + 7] == e[7]);
    assert(n == ((n & 0xff) as u8) as u64 | (((((n >> 8) & 0xff) as u8) as u64) << 8) | (((((n >> 16) & 0xff) as u8) as u64) << 16)
        | (((((n >> 24) & 0xff) as u8) as u64) << 24) | (((((n >> 32) & 0xff) as u8) as u64) << 32)
        | (((((n >> 40) & 0xff) as u8) as u64) << 40) | (((((n >> 48) & 0xff) as u8) as u64) << 48)
        | (((((n >> 56) & 0xff) as u8) as u64) << 56)) by (bit_vector);
}

proof fn lemma_bytes_at_split(b: Seq<u8>, p: int, e1: Seq<u8>, e2: Seq<u8>)
    requires
        bytes_at(b, p, e1 + e2),
    ensures
        bytes_at(b, p, e1),
        bytes_at(b, p + e1.len(), e2),
{
    assert forall|i: int| 0 <= i < e1.len() implies b[p + i] == #[trigger] e1[i] by {
        assert((e1 + e2)[i] == e1[i]);
    }
    assert forall|i: int| 0 <= i < e2.len() implies b[p + e1.len() + i] == #[trigger] e2[i] by {
        assert((e1 + e2)[e1.len() + i] == e2[i]);
    }
}

proof fn lemma_read_target_of(b: Seq<u8>, p: int, t: Target)
    requires
        bytes_at(b, p, enc_target(t)),
    ensures
        read_target(b, p) == Some((t, p + enc_target(t).len())),
{
    match t {
        Target::Wire { row, column } => {
            let e = enc_target(t);
            lemma_bytes_at_split(b, p, seq![1u8] + enc_u64(row as u64), enc_u64(column as u64));
            lemma_bytes_at_split(b, p, seq![1u8], enc_u64(row as u64));
            assert(b[p + 0] == seq![1u8][0]);
            lemma_read_u64_of(b, p + 1, row as u64);
            lemma_read_u64_of(b, p + 9, column as u64);
        },
        Target::VirtualTarget { index } => {
            lemma_bytes_at_split(b, p, seq![0u8], enc_u64(index as u64));
            assert(b[p + 0] == seq![0u8][0]);
            lemma_read_u64_of(b, p + 1, index as u64);
        },
    }
}

proof fn lemma_read_challenges_of(b: Seq<u8>, p: int, s: Seq<GrandProductChallenge<Target>>)
    requires
        bytes_at(b, p, enc_challenges(s)),
    ensures
        read_challenges(b, p, s.len()) == Some((s, p + enc_challenges(s).len())),
    decreases s.len(),
{
    if s.len() > 0 {
        let init = s.drop_last();
        let last = s.last();
        let e0 = enc_challenges(init);
        let e1 = enc_target(last.beta);
        let e2 = enc_target(last.gamma);
        lemma_bytes_at_split(b, p, e0 + e1, e2);
        lemma_bytes_at_split(b, p, e0, e1);
        lemma_read_challenges_of(b, p, init);
        lemma_read_target_of(b, p + e0.len(), last.beta);
        lemma_read_target_of(b, p + e0.len() + e1.len(), last.gamma);
        assert(init.push(GrandProductChallenge { beta: last.beta, gamma: last.gamma }) =~= s);
    }
}

/// Decoding what `to_buffer` wrote gives the same challenges back, wherever the
/// encoding starts and whatever follows it, and stops right after it.
pub proof fn lemma_challenge_set_round_trip(
    prefix: Seq<u8>,
    s: Seq<GrandProductChallenge<Target>>,
    rest: Seq<u8>,
)
    requires
        s.len() <= usize::MAX,
    ensures
        read_set(prefix + enc_set(s) + rest, prefix.len() as int) == Some(
            (s, prefix.len() + enc_set(s).len() as int),
        ),
{
    let b = prefix + enc_set(s) + rest;
    let p = prefix.len() as int;
    let n = s.len() as u64;
    assert(bytes_at(b, p, enc_set(s))) by {
        assert forall|i: int| 0 <= i < enc_set(s).len() implies b[p + i] == #[trigger] enc_set(s)[i] by {}
    }
    lemma_bytes_at_split(b, p, enc_u64(n), enc_challenges(s));
    lemma_read_u64_of(b, p, n);
    assert((n as usize) as nat == s.len());
    lemma_read_challenges_of(b, p + 8, s);
}

fn write_u64(buffer: &mut Vec<u8>, n: u64)
    ensures
        final(buffer)@ == old(buffer)@ + enc_u64(n),
{
    let ghost start = buffer@;
    buffer.push((n & 0xff) as u8);
    buffer.push(((n >> 8) & 0xff) as u8);
    buffer.push(((n >> 16) & 0xff) as u8);
    buffer.push(((n >> 24) & 0xff) as u8);
    buffer.push(((n >> 32) & 0xff) as u8);
    buffer.push(((n >> 40) & 0xff) as u8);
    buffer.push(((n >> 48) & 0xff) as u8);
    buffer.push(((n >> 56) & 0xff) as u8);
    assert(buffer@ =~= start + enc_u64(n));
}

fn write_target(buffer: &mut Vec<u8>, t: Target)
    ensures
        final(buffer)@ == old(buffer)@ + enc_target(t),
{
    let ghost start = buffer@;
    match t {
        Target::Wire { row, column } => {
            buffer.push(1u8);
            write_u64(buffer, row as u64);
            write_u64(buffer, column as u64);
            assert(buffer@ =~= start + enc_target(t));
        },
        Target::VirtualTarget { index } => {
            buffer.push(0u8);
            write_u64(buffer, index as u64);
            assert(buffer@ =~= start + enc_target(t));
        },
    }
}

impl GrandProductChallengeSet<Target> {
    /// Appends the encoding of the set to `buffer`.
    pub fn to_buffer(&self, buffer: &mut Vec<u8>)
        ensures
            final(buffer)@ == old(buffer)@ + enc_set(self.challenges@),
    {
        let ghost start = buffer@;
        write_u64(buffer, self.challenges.len() as u64);
        let mut i: usize = 0;
        while i < self.challenges.len()
            invariant
                i <= self.challenges@.len(),
                buffer@ == start + enc_u64(self.challenges@.len() as u64) + enc_challenges(
                    self.challenges@.subrange(0, i as int),
                ),
            decreases self.challenges@.len() - i,
        {
            let ch = self.challenges[i];
            write_target(buffer, ch.beta);
            write_target(buffer, ch.gamma);
            assert(self.challenges@.subrange(0, i + 1).drop_last() =~= self.challenges@.subrange(0, i as int));
            i = i + 1;
            assert(buffer@ =~= start + enc_u64(self.challenges@.len() as u64) + enc_challenges(
                self.challenges@.subrange(0, i as int),
            ));
        }
        assert(self.challenges@.subrange(0, self.challenges@.len() as int) =~= self.challenges@);
        assert(buffer@ =~= start + enc_set(self.challenges@));
    }

    /// Reads a set from `buffer` at its position, and moves the position past it.
    pub fn from_buffer(buffer: &mut Buffer) -> (r: Result<Self, IoError>)
        ensures
            final(buffer).bytes@ == old(buffer).bytes@,
            match read_set(old(buffer).bytes@, old(buffer).pos as int) {
                Some((s, q)) => r matches Ok(set) && set.challenges@ == s && final(buffer).pos == q,
                None => r is Err,
            },
    {
        let length = read_usize(buffer)?;
        let ghost b = buffer.bytes@;
        let ghost start_pos = buffer.pos as int;
        let mut challenges: Vec<GrandProductChallenge<Target>> = Vec::new();
        let mut i: usize = 0;
        while i < length
            invariant
                i <= length,
                buffer.bytes@ == b,
                b == old(buffer).bytes@,
                read_set(b, old(buffer).pos as int) == read_challenges(b, start_pos, length as nat),
                read_challenges(b, start_pos, i as nat) == Some((challenges@, buffer.pos as int)),
            decreases length - i,
        {
            let beta = match read_target_from(buffer) {
                Ok(t) => t,
                Err(e) => {
                    proof { lemma_read_fails_on(b, start_pos, (i + 1) as nat, length as nat); }
                    return Err(e);
                },
            };
            let gamma = match read_target_from(buffer) {
                Ok(t) => t,
                Err(e) => {
                    proof { lemma_read_fails_on(b, start_pos, (i + 1) as nat, length as nat); }
                    return Err(e);
                },
            };
            challenges.push(GrandProductChallenge { beta, gamma });
            i = i + 1;
        }
        Ok(GrandProductChallengeSet { challenges })
    }
}

/// Once reading fails, reading more challenges fails too.
proof fn lemma_read_fails_on(b: Seq<u8>, p: int, k: nat, m: nat)
    requires
        k <= m,
        read_challenges(b, p, k) is None,
    ensures
        read_challenges(b, p, m) is None,
    decreases m - k,
{
    if k < m {
        lemma_read_fails_on(b, p, k, (m - 1) as nat);
    }
}

fn read_usize(buffer: &mut Buffer) -> (r: Result<usize, IoError>)
    ensures
        final(buffer).bytes@ == old(buffer).bytes@,
        match read_u64(old(buffer).bytes@, old(buffer).pos as int) {
            Some(n) => r == Ok::<usize, IoError>(n as usize) && final(buffer).pos == old(buffer).pos + 8,
            None => r is Err,
        },
{
    let p = buffer.pos;
    if p > buffer.bytes.len() || buffer.bytes.len() - p < 8 {
        return Err(IoError);
    }
    let b = &buffer.bytes;
    let n: u64 = (b[p] as u64) | ((b[p + 1] as u64) << 8) | ((b[p + 2] as u64) << 16) | ((b[p + 3] as u64) << 24)
        | ((b[p + 4] as u64) << 32) | ((b[p + 5] as u64) << 40) | ((b[p + 6] as u64) << 48) | ((b[p + 7] as u64) << 56);
    buffer.pos = p + 8;
    Ok(n as usize)
}

fn read_target_from(buffer: &mut Buffer) -> (r: Result<Target, IoError>)
    ensures
        final(buffer).bytes@ == old(buffer).bytes@,
        match read_target(old(buffer).bytes@, old(buffer).pos as int) {
            Some((t, q)) => r == Ok::<Target, IoError>(t) && final(buffer).pos == q,
            None => r is Err,
        },
{
    let p = buffer.pos;
    if p >= buffer.bytes.len() {
        return Err(IoError);
    }
    let tag = buffer.bytes[p];
    buffer.pos = p + 1;
    if tag == 1 {
        let row = read_usize(buffer)?;
        let column = read_usize(buffer)?;
        Ok(Target::Wire { row, column })
    } else if tag == 0 {
        let index = read_usize(buffer)?;
        Ok(Target::VirtualTarget { index })
    } else {
        Err(IoError)
    }
}

} // verus!
