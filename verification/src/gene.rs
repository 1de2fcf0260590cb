//! A candidate solution: a fixed-length byte string together with a lazily
//! computed, memoized fitness score (a mismatch count against a goal).

use vstd::prelude::*;

use crate::rng::RandomSource;
use vstd::string::StringSliceAdditionalSpecFns;
use vstd::utf8::valid_utf8;

verus! {

/// A byte below 128, i.e. within the ASCII range.
pub open spec fn ascii_byte(b: u8) -> bool {
    b < 128
}

/// Every byte of the sequence is ASCII.
pub open spec fn ascii_seq(s: Seq<u8>) -> bool {
    forall|i: int| 0 <= i < s.len() ==> ascii_byte(#[trigger] s[i])
}

/// An ASCII letter or digit, the alphabet random genes are drawn from.
pub open spec fn alphanumeric_byte(b: u8) -> bool {
    (48 <= b <= 57) || (65 <= b <= 90) || (97 <= b <= 122)
}

/// Number of positions in `a[..n]` whose byte differs from `b` at the same
/// position (both sequences are read at indices below `n`).
pub open spec fn hamming_prefix(a: Seq<u8>, b: Seq<u8>, n: int) -> int
    decreases n,
{
    if n <= 0 {
        0
    } else {
        hamming_prefix(a, b, n - 1) + (if a[n - 1] == b[n - 1] {
            0int
        } else {
            1int
        })
    }
}

/// Hamming distance between two equal-length byte sequences.
pub open spec fn hamming(a: Seq<u8>, b: Seq<u8>) -> int {
    hamming_prefix(a, b, a.len() as int)
}

pub proof fn lemma_hamming_prefix_bounds(a: Seq<u8>, b: Seq<u8>, n: int)
    requires
        n >= 0,
    ensures
        0 <= hamming_prefix(a, b, n) <= n,
    decreases n,
{
    if n > 0 {
        lemma_hamming_prefix_bounds(a, b, n - 1);
    }
}

/// The fitness of `data` against `goal`: the sentinel maximum when the
/// lengths differ or the bytes are not valid UTF-8 text, else the mismatch
/// count. Lower is better; zero means an exact match.
pub open spec fn score_spec(data: Seq<u8>, goal: Seq<u8>) -> int {
    if data.len() != goal.len() || !valid_utf8(data) {
        usize::MAX as int
    } else {
        hamming(data, goal)
    }
}

/// Any all-ASCII byte sequence is valid UTF-8: each byte below 128 stands
/// for one scalar encoded in a single byte.
pub proof fn lemma_ascii_seq_valid_utf8(s: Seq<u8>)
    requires
        ascii_seq(s),
    ensures
        valid_utf8(s),
    decreases s.len(),
{
    if s.len() != 0 {
        let b = s[0];
        assert(ascii_byte(b));
        assert(b & 0x7f == b) by (bit_vector)
            requires
                b < 128,
        ;
        assert(vstd::utf8::valid_first_scalar(s));
        assert(vstd::utf8::length_of_first_scalar(s) == 1);
        let rest = vstd::utf8::pop_first_scalar(s);
        assert(rest =~= s.subrange(1, s.len() as int));
        assert(ascii_seq(rest)) by {
            assert forall|i: int| 0 <= i < rest.len() implies ascii_byte(#[trigger] rest[i]) by {
                assert(rest[i] == s[i + 1]);
            }
        }
        lemma_ascii_seq_valid_utf8(rest);
    }
}

/// What one call of `calc_score` leaves in the score slot: an already set
/// score stays, an unset one becomes the fitness of `data` against `goal`.
pub open spec fn calc_score_result(score: Option<usize>, data: Seq<u8>, goal: Seq<u8>) -> Option<
    usize,
> {
    match score {
        Some(k) => Some(k),
        None => Some(score_spec(data, goal) as usize),
    }
}

/// The memoized score of a scored gene.
pub open spec fn score_of(g: Gene) -> usize {
    g.score->Some_0
}

/// Scoring is idempotent: a first call fixes the score, and a second call —
/// even against a different goal — leaves it unchanged.
pub proof fn lemma_calc_score_idempotent(
    score: Option<usize>,
    data: Seq<u8>,
    goal_a: Seq<u8>,
    goal_b: Seq<u8>,
)
    ensures
        calc_score_result(calc_score_result(score, data, goal_a), data, goal_b)
            == calc_score_result(score, data, goal_a),
{
}

/// A gene whose length differs from the goal's is scored with the sentinel
/// maximum, never with a finite mismatch count.
pub proof fn lemma_length_mismatch_sentinel(data: Seq<u8>, goal: Seq<u8>)
    requires
        data.len() != goal.len(),
    ensures
        score_spec(data, goal) == usize::MAX as int,
{
}

/// Declares std::str::Utf8Error, the error of std::str::from_utf8, so that it
/// can stand in `as_str`'s signature; the value is opaque here.
#[verifier::external_type_specification]
#[verifier::external_body]
pub struct ExUtf8Error(std::str::Utf8Error);

/// One candidate solution.
#[derive(Debug, Clone)]
pub struct Gene {
    pub data: Vec<u8>,
    pub score: Option<usize>,
}

impl Gene {
    /// A fresh gene with an unset score.
    pub fn new(data: Vec<u8>) -> (g: Gene)
        ensures
            g.data == data,
            g.score is None,
    {
        Gene { data, score: None }
    }

    /// The memoized score; `calc_score` must have run first.
    pub fn score(&self) -> (r: usize)
        requires
            self.score is Some,
        ensures
            r == score_of(*self),
    {
        self.score.unwrap()
    }

    /// Relies on std::str::from_utf8: returns `Ok` exactly when the bytes are
    /// valid UTF-8, and the returned string is a view of exactly those bytes
    /// (a lossless round trip).
    #[verifier::external_body]
    pub fn as_str(&self) -> (r: Result<&str, std::str::Utf8Error>)
        ensures
            r is Ok <==> valid_utf8(self.data@),
            r is Ok ==> (r->Ok_0).spec_bytes() == self.data@,
    {
        std::str::from_utf8(&self.data)
    }

    /// Orders two scored genes by their memoized scores.
    pub fn cmp(&self, other: &Gene) -> (r: core::cmp::Ordering)
        requires
            self.score is Some,
            other.score is Some,
        ensures
            r == core::cmp::Ordering::Less <==> score_of(*self) < score_of(*other),
            r == core::cmp::Ordering::Equal <==> score_of(*self) == score_of(*other),
            r == core::cmp::Ordering::Greater <==> score_of(*self) > score_of(*other),
    {
        let a = self.score();
        let b = other.score();
        if a < b {
            core::cmp::Ordering::Less
        } else if a == b {
            core::cmp::Ordering::Equal
        } else {
            core::cmp::Ordering::Greater
        }
    }

    /// Mixes two parents byte by byte: each position of the child takes, on a
    /// fair coin, the byte `self` or `other` holds there. The child is as
    /// long as the shorter parent and starts unscored.
    pub fn crossover(&self, other: &Gene, source: &mut RandomSource) -> (child: Gene)
        ensures
            child.data@.len() == if self.data@.len() <= other.data@.len() {
                self.data@.len()
            } else {
                other.data@.len()
            },
            forall|i: int|
                0 <= i < child.data@.len() ==> #[trigger] child.data@[i] == self.data@[i]
                    || child.data@[i] == other.data@[i],
            child.score is None,
    {
        let len: usize = if self.data.len() <= other.data.len() {
            self.data.len()
        } else {
            other.data.len()
        };
        let mut mixed: Vec<u8> = Vec::new();
        let mut i: usize = 0;
        while i < len
            invariant
                i <= len,
                len <= self.data@.len(),
                len <= other.data@.len(),
                mixed@.len() == i,
                forall|k: int|
                    0 <= k < i ==> #[trigger] mixed@[k] == self.data@[k] || mixed@[k]
                        == other.data@[k],
            decreases len - i,
        {
            let byte: u8 = if source.coin() {
                self.data[i]
            } else {
                other.data[i]
            };
            mixed.push(byte);
            i = i + 1;
        }
        Gene::new(mixed)
    }

    /// Overwrites one uniformly chosen byte with a uniform draw below 126 and
    /// resets the memoized score, since the data may no longer match it.
    pub fn mutate(&mut self, source: &mut RandomSource)
        requires
            old(self).data@.len() > 0,
        ensures
            final(self).data@.len() == old(self).data@.len(),
            final(self).score is None,
            exists|i: int|
                0 <= i < old(self).data@.len() && final(self).data@[i] < 126 && (forall|j: int|
                    0 <= j < old(self).data@.len() && j != i ==> final(self).data@[j] == old(
                        self,
                    ).data@[j]),
    {
        let index: usize = source.index_below(self.data.len());
        let drawn: usize = source.index_below(126);
        let byte: u8 = drawn as u8;
        self.data.set(index, byte);
        self.score = None;
        proof {
            assert(self.data@[index as int] < 126);
        }
    }

    /// Computes and memoizes the score against `goal`; a no-op once a score
    /// is set.
    pub fn calc_score(&mut self, goal: &[u8])
        ensures
            final(self).data == old(self).data,
            old(self).score is Some ==> *final(self) == *old(self),
            final(self).score == calc_score_result(old(self).score, old(self).data@, goal@),
    {
        if self.score.is_some() {
            return ;
        }
        let score: usize;
        if self.data.len() != goal.len() || self.as_str().is_err() {
            score = usize::MAX;
        } else {
            let mut count: usize = 0;
            let mut i: usize = 0;
            while i < self.data.len()
                invariant
                    self.data@.len() == goal@.len(),
                    i <= self.data@.len(),
                    count == hamming_prefix(self.data@, goal@, i as int),
                    count <= i,
                decreases self.data@.len() - i,
            {
                if self.data[i] != goal[i] {
                    count = count + 1;
                }
                i = i + 1;
            }
            proof {
                lemma_hamming_prefix_bounds(self.data@, goal@, self.data@.len() as int);
            }
            score = count;
        }
        self.score = Some(score);
    }
}

} // verus!
