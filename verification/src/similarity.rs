//! The local similarity estimator: a cheap, deterministic first-stage filter.
//! Each history question is compared with the candidate after normalization;
//! the score of a pair is `1 - d / L`, where `d` is the Damerau-Levenshtein
//! distance and `L` the longer character count, and the estimator returns the
//! maximum over the whole history. Scores are exact rationals clamped into
//! [0, 1]; no floating point is involved.

use vstd::prelude::*;
use crate::text::norm;
use crate::text::normalize;
use crate::poll::HistoryStore;
use crate::poll::questions_of;

verus! {

/// A similarity score: the rational `num / den`, kept clamped in [0, 1].
#[derive(Clone, Copy, Debug)]
pub struct Score {
    pub num: usize,
    pub den: usize,
}

impl Score {
    pub open spec fn wf(&self) -> bool {
        0 < self.den && self.num <= self.den
    }

    /// The abstract value, as a (numerator, denominator) pair.
    pub open spec fn frac(&self) -> (nat, nat) {
        (self.num as nat, self.den as nat)
    }

    pub fn zero() -> (r: Score)
        ensures
            r.frac() == (0nat, 1nat),
            r.wf(),
    {
        Score { num: 0, den: 1 }
    }

    pub fn one() -> (r: Score)
        ensures
            r.frac() == (1nat, 1nat),
            r.wf(),
    {
        Score { num: 1, den: 1 }
    }

    /// Whether this score is strictly above the rational `t_num / t_den`.
    pub fn above(&self, t_num: usize, t_den: usize) -> (r: bool)
        requires
            t_den > 0,
        ensures
            r == frac_gt(self.frac(), (t_num as nat, t_den as nat)),
    {
        proof {
            lemma_mul_bounded(self.num as nat, t_den as nat);
            lemma_mul_bounded(t_num as nat, self.den as nat);
        }
        (self.num as u128) * (t_den as u128) > (t_num as u128) * (self.den as u128)
    }
}

/// Strict order on rationals given as (numerator, denominator) pairs.
pub open spec fn frac_gt(a: (nat, nat), b: (nat, nat)) -> bool {
    a.0 * b.1 > b.0 * a.1
}

/// The product of two machine-word values fits in 128 bits.
proof fn lemma_mul_bounded(a: nat, b: nat)
    requires
        a <= usize::MAX,
        b <= usize::MAX,
    ensures
        a * b <= u128::MAX,
{
    assert(a * b <= (usize::MAX as nat) * (usize::MAX as nat)) by (nonlinear_arith)
        requires
            a <= usize::MAX,
            b <= usize::MAX,
    {
    }
}

/// The number of UTF-8 characters a byte string holds: the bytes that do not
/// continue a multi-byte sequence.
pub open spec fn char_count(s: Seq<u8>) -> nat
    decreases s.len(),
{
    if s.len() == 0 {
        0
    } else {
        char_count(s.drop_last()) + if 128 <= s.last() < 192 {
            0nat
        } else {
            1nat
        }
    }
}

/// Counting characters never exceeds counting bytes.
proof fn lemma_char_count_le_len(s: Seq<u8>)
    ensures
        char_count(s) <= s.len(),
    decreases s.len(),
{
    if s.len() > 0 {
        lemma_char_count_le_len(s.drop_last());
    }
}

fn char_count_vec(s: &Vec<u8>) -> (r: usize)
    ensures
        r == char_count(s@),
{
    let mut count: usize = 0;
    let mut i: usize = 0;
    while i < s.len()
        invariant
            i <= s@.len(),
            count == char_count(s@.take(i as int)),
        decreases s@.len() - i,
    {
        let b = s[i];
        proof {
            lemma_char_count_le_len(s@.take(i as int));
            assert(s@.take(i + 1).drop_last() =~= s@.take(i as int));
            assert(s@.take(i + 1).last() == s@[i as int]);
        }
        if b < 128 || b >= 192 {
            count += 1;
        }
        i += 1;
    }
    proof {
        assert(s@.take(s@.len() as int) =~= s@);
    }
    count
}

pub open spec fn utf8_tail(b: u8) -> bool {
    128 <= b && b <= 191
}

/// Whether `s` is valid UTF-8, by the encoding's grammar: ASCII bytes stand
/// alone, and each lead byte brings its continuation bytes, with overlong
/// forms, surrogates and values past the last code point excluded.
pub open spec fn is_valid_utf8(s: Seq<u8>) -> bool
    decreases s.len(),
{
    if s.len() == 0 {
        true
    } else {
        let b0 = s[0];
        if b0 < 128 {
            is_valid_utf8(s.skip(1))
        } else if 194 <= b0 && b0 <= 223 {
            s.len() >= 2 && utf8_tail(s[1]) && is_valid_utf8(s.skip(2))
        } else if 224 <= b0 && b0 <= 239 {
            let lo: u8 = if b0 == 224 {
                160
            } else {
                128
            };
            let hi: u8 = if b0 == 237 {
                159
            } else {
                191
            };
            s.len() >= 3 && lo <= s[1] && s[1] <= hi && utf8_tail(s[2]) && is_valid_utf8(s.skip(3))
        } else if 240 <= b0 && b0 <= 244 {
            let lo: u8 = if b0 == 240 {
                144
            } else {
                128
            };
            let hi: u8 = if b0 == 244 {
                143
            } else {
                191
            };
            s.len() >= 4 && lo <= s[1] && s[1] <= hi && utf8_tail(s[2]) && utf8_tail(s[3])
                && is_valid_utf8(s.skip(4))
        } else {
            false
        }
    }
}

/// Checks UTF-8 validity.
pub fn is_utf8_vec(s: &Vec<u8>) -> (r: bool)
    ensures
        r == is_valid_utf8(s@),
{
    let n = s.len();
    let mut i: usize = 0;
    proof {
        assert(s@.skip(0) =~= s@);
    }
    while i < n
        invariant
            i <= n,
            n == s@.len(),
            is_valid_utf8(s@) == is_valid_utf8(s@.skip(i as int)),
        decreases n - i,
    {
        let b0 = s[i];
        proof {
            assert(s@.skip(i as int)[0] == s@[i as int]);
        }
        if b0 < 128 {
            proof {
                assert(s@.skip(i as int).skip(1) =~= s@.skip(i + 1));
            }
            i += 1;
        } else if 194 <= b0 && b0 <= 223 {
            if n - i < 2 {
                return false;
            }
            let b1 = s[i + 1];
            proof {
                assert(s@.skip(i as int)[1] == s@[i + 1]);
            }
            if b1 < 128 || b1 > 191 {
                return false;
            }
            proof {
                assert(s@.skip(i as int).skip(2) =~= s@.skip(i + 2));
            }
            i += 2;
        } else if 224 <= b0 && b0 <= 239 {
            if n - i < 3 {
                return false;
            }
            let b1 = s[i + 1];
            let b2 = s[i + 2];
            proof {
                assert(s@.skip(i as int)[1] == s@[i + 1]);
                assert(s@.skip(i as int)[2] == s@[i + 2]);
            }
            let lo: u8 = if b0 == 224 {
                160
            } else {
                128
            };
            let hi: u8 = if b0 == 237 {
                159
            } else {
                191
            };
            if b1 < lo || b1 > hi {
                return false;
            }
            if b2 < 128 || b2 > 191 {
                return false;
            }
            proof {
                assert(s@.skip(i as int).skip(3) =~= s@.skip(i + 3));
            }
            i += 3;
        } else if 240 <= b0 && b0 <= 244 {
            if n - i < 4 {
                return false;
            }
            let b1 = s[i + 1];
            let b2 = s[i + 2];
            let b3 = s[i + 3];
            proof {
                assert(s@.skip(i as int)[1] == s@[i + 1]);
                assert(s@.skip(i as int)[2] == s@[i + 2]);
                assert(s@.skip(i as int)[3] == s@[i + 3]);
            }
            let lo: u8 = if b0 == 240 {
                144
            } else {
                128
            };
            let hi: u8 = if b0 == 244 {
                143
            } else {
                191
            };
            if b1 < lo || b1 > hi {
                return false;
            }
            if b2 < 128 || b2 > 191 {
                return false;
            }
            if b3 < 128 || b3 > 191 {
                return false;
            }
            proof {
                assert(s@.skip(i as int).skip(4) =~= s@.skip(i + 4));
            }
            i += 4;
        } else {
            return false;
        }
    }
    proof {
        assert(s@.skip(i as int) =~= Seq::<u8>::empty());
    }
    true
}

/// What the metric can take: valid UTF-8 on both sides, with the byte order
/// and the character order of the two strings in agreement. The metric
/// reorders its arguments by byte length but then subtracts character
/// counts, so a byte-shorter string with more characters would drive it
/// outside its supported range.
pub open spec fn comparable(a: Seq<u8>, b: Seq<u8>) -> bool {
    &&& is_valid_utf8(a)
    &&& is_valid_utf8(b)
    &&& (a.len() <= b.len() ==> char_count(a) <= char_count(b))
    &&& (b.len() <= a.len() ==> char_count(b) <= char_count(a))
}

/// The Damerau-Levenshtein distance that the outside metric reports for two
/// byte strings, as a function of those bytes alone.
pub uninterp spec fn dl_distance(a: Seq<u8>, b: Seq<u8>) -> nat;

/// Relies on str_distance::str_distance with the DamerauLevenshtein metric:
/// the restricted Damerau-Levenshtein edit distance over the characters of
/// the two strings, a deterministic function of its two arguments. Equal
/// inputs are at distance zero: the metric first trims the matching prefix
/// and suffix and reports the length of what remains of the longer string,
/// which is empty when the inputs are equal. The metric puts the byte-shorter
/// string first and then subtracts character counts, so the `requires` admit
/// only pairs whose byte order and character order agree — on others the
/// subtraction would leave the metric's supported range — and only valid
/// UTF-8, which str::from_utf8_lossy hands on unchanged, so that byte counts
/// and character counts mean there what they mean here.
#[verifier::external_body]
fn damerau_levenshtein(a: &Vec<u8>, b: &Vec<u8>) -> (r: usize)
    requires
        comparable(a@, b@),
    ensures
        r == dl_distance(a@, b@),
        a@ == b@ ==> r == 0,
{
    let sa = String::from_utf8_lossy(a);
    let sb = String::from_utf8_lossy(b);
    let d = str_distance::str_distance(
        sa.as_ref(),
        sb.as_ref(),
        str_distance::DamerauLevenshtein::default(),
    );
    *d
}

/// Whether two byte strings are equal.
fn eq_bytes(a: &Vec<u8>, b: &Vec<u8>) -> (r: bool)
    ensures
        r == (a@ == b@),
{
    if a.len() != b.len() {
        proof {
            assert(a@ != b@);
        }
        return false;
    }
    let mut i: usize = 0;
    while i < a.len()
        invariant
            i <= a@.len(),
            a@.len() == b@.len(),
            forall|j: int| 0 <= j < i ==> a@[j] == b@[j],
        decreases a@.len() - i,
    {
        if a[i] != b[i] {
            return false;
        }
        i += 1;
    }
    proof {
        assert(a@ =~= b@);
    }
    true
}

/// The score of one normalized pair: 1 when the strings are equal (or both
/// have no characters), 0 when the pair is one the metric cannot take, else
/// `(L - d) / L` with the distance clamped to the longer character count `L`.
pub open spec fn pair_score(a: Seq<u8>, b: Seq<u8>) -> (nat, nat) {
    if a == b {
        (1nat, 1nat)
    } else if !comparable(a, b) {
        (0nat, 1nat)
    } else {
        let l = if char_count(a) >= char_count(b) {
            char_count(a)
        } else {
            char_count(b)
        };
        if l == 0 {
            (1nat, 1nat)
        } else if dl_distance(a, b) >= l {
            (0nat, l)
        } else {
            ((l - dl_distance(a, b)) as nat, l)
        }
    }
}

/// The running maximum of the pair scores of a candidate question against
/// each history question, 0 for an empty history; a later equal score never
/// replaces an earlier one.
pub open spec fn best_score(cq: Seq<u8>, qs: Seq<Seq<u8>>) -> (nat, nat)
    decreases qs.len(),
{
    if qs.len() == 0 {
        (0nat, 1nat)
    } else {
        let prev = best_score(cq, qs.drop_last());
        let cur = pair_score(norm(cq), norm(qs.last()));
        if frac_gt(cur, prev) {
            cur
        } else {
            prev
        }
    }
}

pub open spec fn score_wf(a: (nat, nat)) -> bool {
    0 < a.1 && a.0 <= a.1
}

/// Every pair score is a clamped rational in [0, 1].
proof fn lemma_pair_score_wf(a: Seq<u8>, b: Seq<u8>)
    ensures
        score_wf(pair_score(a, b)),
{
}

/// The running maximum stays in [0, 1].
proof fn lemma_best_score_wf(cq: Seq<u8>, qs: Seq<Seq<u8>>)
    ensures
        score_wf(best_score(cq, qs)),
    decreases qs.len(),
{
    if qs.len() > 0 {
        lemma_best_score_wf(cq, qs.drop_last());
        lemma_pair_score_wf(norm(cq), norm(qs.last()));
    }
}

/// The local first-stage filter: the best (largest) pair score of the
/// candidate question against the entire history, both sides normalized.
pub fn local_similarity(cq: &Vec<u8>, history: &HistoryStore) -> (r: Score)
    ensures
        r.frac() == best_score(cq@, questions_of(history@)),
        r.wf(),
        history@.len() == 0 ==> r.frac() == (0nat, 1nat),
{
    let nc = normalize(cq);
    let mut acc = Score::zero();
    let mut i: usize = 0;
    let ghost qs = questions_of(history@);
    proof {
        assert(qs.take(0) =~= Seq::<Seq<u8>>::empty());
    }
    while i < history.records.len()
        invariant
            i <= history.records@.len(),
            qs == questions_of(history@),
            qs.len() == history.records@.len(),
            nc@ == norm(cq@),
            acc.frac() == best_score(cq@, qs.take(i as int)),
            acc.wf(),
        decreases history.records@.len() - i,
    {
        let nr = normalize(&history.records[i].question);
        proof {
            assert(history@[i as int] == history.records@[i as int]@);
            assert(qs[i as int] == history@[i as int].question);
        }
        let cur = pair_score_exec(&nc, &nr);
        proof {
            assert(cur.frac() == pair_score(norm(cq@), norm(qs[i as int])));
            assert(qs.take(i + 1).drop_last() =~= qs.take(i as int));
            assert(qs.take(i + 1).last() == qs[i as int]);
        }
        if cur.above(acc.num, acc.den) {
            acc = cur;
        }
        i += 1;
    }
    proof {
        assert(qs.take(qs.len() as int) =~= qs);
    }
    acc
}

/// The score of one already-normalized pair.
fn pair_score_exec(a: &Vec<u8>, b: &Vec<u8>) -> (r: Score)
    ensures
        r.frac() == pair_score(a@, b@),
        r.wf(),
{
    if eq_bytes(a, b) {
        return Score::one();
    }
    let ca = char_count_vec(a);
    let cb = char_count_vec(b);
    let ord_ab = a.len() > b.len() || ca <= cb;
    let ord_ba = b.len() > a.len() || cb <= ca;
    if !(is_utf8_vec(a) && is_utf8_vec(b) && ord_ab && ord_ba) {
        return Score::zero();
    }
    let l = if ca >= cb {
        ca
    } else {
        cb
    };
    if l == 0 {
        return Score::one();
    }
    let d = damerau_levenshtein(a, b);
    if d >= l {
        Score { num: 0, den: l }
    } else {
        Score { num: l - d, den: l }
    }
}

/// When the candidate's normal form exactly equals some history question's
/// normal form, the local similarity is exactly 1.
pub proof fn lemma_exact_match_scores_one(cq: Seq<u8>, qs: Seq<Seq<u8>>)
    requires
        exists|i: int| 0 <= i < qs.len() && norm(#[trigger] qs[i]) == norm(cq),
    ensures
        best_score(cq, qs).0 == best_score(cq, qs).1,
    decreases qs.len(),
{
    let i = choose|i: int| 0 <= i < qs.len() && norm(#[trigger] qs[i]) == norm(cq);
    lemma_best_score_wf(cq, qs);
    let best = best_score(cq, qs);
    let prev = best_score(cq, qs.drop_last());
    let cur = pair_score(norm(cq), norm(qs.last()));
    lemma_best_score_wf(cq, qs.drop_last());
    lemma_pair_score_wf(norm(cq), norm(qs.last()));
    if i == qs.len() - 1 {
        assert(cur == (1nat, 1nat));
        if frac_gt(cur, prev) {
            assert(best.0 == best.1);
        } else {
            assert(cur.0 * prev.1 <= prev.0 * cur.1);
            assert(prev.1 <= prev.0) by (nonlinear_arith)
                requires
                    cur == (1nat, 1nat),
                    cur.0 * prev.1 <= prev.0 * cur.1,
            {
            }
            assert(prev.0 == prev.1);
        }
    } else {
        assert(qs.drop_last()[i] == qs[i]);
        lemma_exact_match_scores_one(cq, qs.drop_last());
        assert(prev.0 == prev.1);
        if frac_gt(cur, prev) {
            assert(cur.0 * prev.1 > prev.0 * cur.1) by {
                assert(frac_gt(cur, prev));
            }
            assert(cur.0 * prev.1 > prev.1 * cur.1) by (nonlinear_arith)
                requires
                    cur.0 * prev.1 > prev.0 * cur.1,
                    prev.0 == prev.1,
            {
            }
            assert(cur.0 > cur.1) by (nonlinear_arith)
                requires
                    cur.0 * prev.1 > prev.1 * cur.1,
                    prev.1 > 0,
            {
            }
            assert(false);
        }
    }
}

} // verus!
