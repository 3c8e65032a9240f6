//! Text normalization: the canonical form of a question used for every
//! similarity comparison. A question is ASCII-lowercased and then a fixed
//! list of stop phrases is removed by literal substring removal (left to
//! right, non-overlapping), in the order the list gives.

use vstd::prelude::*;

verus! {

/// ASCII lowercasing of a single byte.
pub open spec fn lower_byte(b: u8) -> u8 {
    if 65 <= b && b <= 90 {
        (b + 32) as u8
    } else {
        b
    }
}

/// ASCII lowercasing of a byte string.
pub open spec fn lower(s: Seq<u8>) -> Seq<u8> {
    s.map_values(|b: u8| lower_byte(b))
}

/// `s` with every occurrence of `p` removed, scanning left to right and
/// never matching inside text produced by an earlier removal.
pub open spec fn remove_all(s: Seq<u8>, p: Seq<u8>) -> Seq<u8>
    decreases s.len(),
{
    if p.len() == 0 || s.len() < p.len() {
        s
    } else if s.take(p.len() as int) == p {
        remove_all(s.skip(p.len() as int), p)
    } else {
        seq![s[0]] + remove_all(s.skip(1), p)
    }
}

/// `s` with each phrase of `ps` removed in turn.
pub open spec fn remove_phrases(s: Seq<u8>, ps: Seq<Seq<u8>>) -> Seq<u8>
    decreases ps.len(),
{
    if ps.len() == 0 {
        s
    } else {
        remove_phrases(remove_all(s, ps[0]), ps.skip(1))
    }
}

/// The fixed stop-phrase list, in removal order.
pub open spec fn stop_phrases() -> Seq<Seq<u8>> {
    seq![
        seq![119u8, 104u8, 97u8, 116u8],
        seq![119u8, 104u8, 101u8, 114u8, 101u8],
        seq![119u8, 104u8, 111u8],
        seq![119u8, 104u8, 105u8, 99u8, 104u8],
        seq![100u8, 111u8, 32u8, 121u8, 111u8, 117u8],
        seq![119u8, 104u8, 111u8, 109u8],
        seq![99u8, 111u8, 110u8, 115u8, 105u8, 100u8, 101u8, 114u8],
        seq![111u8, 112u8, 105u8, 110u8, 105u8, 111u8, 110u8],
        seq![63u8],
        seq![116u8, 104u8, 105u8, 110u8, 107u8],
        seq![121u8, 111u8, 117u8],
        seq![116u8, 111u8, 32u8, 104u8, 97u8, 118u8, 101u8],
    ]
}

/// The normal form of a question.
pub open spec fn norm(s: Seq<u8>) -> Seq<u8> {
    remove_phrases(lower(s), stop_phrases())
}

/// Whether `p` occurs somewhere in `s`.
pub open spec fn contains_seq(s: Seq<u8>, p: Seq<u8>) -> bool {
    exists|i: int| 0 <= i && i + p.len() <= s.len() && #[trigger] s.subrange(i, i + p.len()) == p
}

/// The stop-phrase list as executable data.
pub fn phrase_list() -> (r: Vec<Vec<u8>>)
    ensures
        r@.map_values(|p: Vec<u8>| p@) == stop_phrases(),
{
    let mut r: Vec<Vec<u8>> = Vec::new();
    r.push(vec![119u8, 104u8, 97u8, 116u8]);
    r.push(vec![119u8, 104u8, 101u8, 114u8, 101u8]);
    r.push(vec![119u8, 104u8, 111u8]);
    r.push(vec![119u8, 104u8, 105u8, 99u8, 104u8]);
    r.push(vec![100u8, 111u8, 32u8, 121u8, 111u8, 117u8]);
    r.push(vec![119u8, 104u8, 111u8, 109u8]);
    r.push(vec![99u8, 111u8, 110u8, 115u8, 105u8, 100u8, 101u8, 114u8]);
    r.push(vec![111u8, 112u8, 105u8, 110u8, 105u8, 111u8, 110u8]);
    r.push(vec![63u8]);
    r.push(vec![116u8, 104u8, 105u8, 110u8, 107u8]);
    r.push(vec![121u8, 111u8, 117u8]);
    r.push(vec![116u8, 111u8, 32u8, 104u8, 97u8, 118u8, 101u8]);
    proof {
        assert(r@.map_values(|p: Vec<u8>| p@) =~~= stop_phrases());
    }
    r
}

/// ASCII-lowercases a byte string.
pub fn lower_vec(s: &Vec<u8>) -> (r: Vec<u8>)
    ensures
        r@ == lower(s@),
{
    let mut out: Vec<u8> = Vec::new();
    let mut i: usize = 0;
    while i < s.len()
        invariant
            i <= s@.len(),
            out@ == lower(s@.take(i as int)),
        decreases s@.len() - i,
    {
        let b = s[i];
        if 65 <= b && b <= 90 {
            out.push(b + 32);
        } else {
            out.push(b);
        }
        proof {
            assert(out@ =~= lower(s@.take(i + 1)));
        }
        i += 1;
    }
    proof {
        assert(s@.take(s@.len() as int) =~= s@);
    }
    out
}

/// Whether `p` stands in `s` at position `i`.
fn matches_at(s: &Vec<u8>, i: usize, p: &Vec<u8>) -> (r: bool)
    requires
        i + p@.len() <= s@.len(),
    ensures
        r == (s@.subrange(i as int, i + p@.len()) == p@),
{
    let n = s.len();
    let mut j: usize = 0;
    while j < p.len()
        invariant
            j <= p@.len(),
            n == s@.len(),
            i + p@.len() <= n,
            forall|k: int| 0 <= k < j ==> s@[i + k] == p@[k],
        decreases p@.len() - j,
    {
        if s[i + j] != p[j] {
            proof {
                assert(s@.subrange(i as int, i + p@.len())[j as int] != p@[j as int]);
            }
            return false;
        }
        j += 1;
    }
    proof {
        assert(s@.subrange(i as int, i + p@.len()) =~= p@);
    }
    true
}

/// Copies a byte string.
pub fn copy_bytes(s: &Vec<u8>) -> (r: Vec<u8>)
    ensures
        r@ == s@,
{
    let mut out: Vec<u8> = Vec::new();
    let mut i: usize = 0;
    while i < s.len()
        invariant
            i <= s@.len(),
            out@ == s@.take(i as int),
        decreases s@.len() - i,
    {
        out.push(s[i]);
        proof {
            assert(out@ =~= s@.take(i + 1));
        }
        i += 1;
    }
    proof {
        assert(s@.take(s@.len() as int) =~= s@);
    }
    out
}

/// Removes every occurrence of `p` from `s`, scanning left to right.
pub fn remove_all_vec(s: &Vec<u8>, p: &Vec<u8>) -> (r: Vec<u8>)
    ensures
        r@ == remove_all(s@, p@),
{
    if p.len() == 0 {
        return copy_bytes(s);
    }
    let mut out: Vec<u8> = Vec::new();
    let mut i: usize = 0;
    proof {
        assert(s@.skip(0) =~= s@);
        assert(out@ + remove_all(s@, p@) =~= remove_all(s@, p@));
    }
    while i < s.len()
        invariant
            i <= s@.len(),
            p@.len() > 0,
            remove_all(s@, p@) == out@ + remove_all(s@.skip(i as int), p@),
        decreases s@.len() - i,
    {
        let ghost pre = s@.skip(i as int);
        if p.len() <= s.len() - i && matches_at(s, i, p) {
            proof {
                assert(pre.take(p@.len() as int) =~= s@.subrange(i as int, i + p@.len()));
                assert(pre.skip(p@.len() as int) =~= s@.skip(i + p@.len()));
                assert(remove_all(pre, p@) == remove_all(s@.skip(i + p@.len()), p@));
            }
            i += p.len();
        } else {
            proof {
                if i + p@.len() <= s@.len() {
                    assert(pre.take(p@.len() as int) =~= s@.subrange(i as int, i + p@.len()));
                    assert(remove_all(pre, p@) == seq![pre[0]] + remove_all(pre.skip(1), p@));
                } else {
                    assert(pre.len() < p@.len());
                    assert(remove_all(pre, p@) == pre);
                    assert(pre =~= seq![pre[0]] + pre.skip(1));
                    assert(remove_all(pre.skip(1), p@) == pre.skip(1));
                }
                assert(pre.skip(1) =~= s@.skip(i + 1));
                assert(pre[0] == s@[i as int]);
            }
            out.push(s[i]);
            proof {
                assert(out@ + remove_all(s@.skip(i + 1), p@)
                    =~= (out@.drop_last() + (seq![s@[i as int]] + remove_all(s@.skip(i + 1), p@))));
            }
            i += 1;
        }
    }
    proof {
        assert(s@.skip(s@.len() as int) =~= Seq::<u8>::empty());
        assert(remove_all(Seq::<u8>::empty(), p@) == Seq::<u8>::empty());
        assert(out@ + Seq::<u8>::empty() =~= out@);
    }
    out
}

/// Normalizes a question: lowercase, then remove each stop phrase in turn.
pub fn normalize(s: &Vec<u8>) -> (r: Vec<u8>)
    ensures
        r@ == norm(s@),
{
    let phrases = phrase_list();
    let mut cur = lower_vec(s);
    let mut k: usize = 0;
    proof {
        assert(stop_phrases().skip(0) =~= stop_phrases());
    }
    while k < phrases.len()
        invariant
            k <= phrases@.len(),
            phrases@.map_values(|p: Vec<u8>| p@) == stop_phrases(),
            remove_phrases(cur@, stop_phrases().skip(k as int)) == norm(s@),
        decreases phrases@.len() - k,
    {
        proof {
            assert(stop_phrases().skip(k as int)[0] == stop_phrases()[k as int]);
            assert(stop_phrases()[k as int] == phrases@.map_values(|p: Vec<u8>| p@)[k as int]);
            assert(stop_phrases().skip(k as int).skip(1) =~= stop_phrases().skip(k + 1));
        }
        cur = remove_all_vec(&cur, &phrases[k]);
        k += 1;
    }
    proof {
        assert(stop_phrases().skip(stop_phrases().len() as int) =~= Seq::<Seq<u8>>::empty());
    }
    cur
}

/// If `p` does not occur in `s`, removal leaves `s` unchanged.
proof fn lemma_remove_all_absent(s: Seq<u8>, p: Seq<u8>)
    requires
        p.len() > 0,
        !contains_seq(s, p),
    ensures
        remove_all(s, p) == s,
    decreases s.len(),
{
    if s.len() < p.len() {
    } else {
        if s.take(p.len() as int) == p {
            assert(s.subrange(0, 0 + p.len() as int) =~= s.take(p.len() as int));
            assert(contains_seq(s, p));
            assert(false);
        }
        assert(!contains_seq(s.skip(1), p)) by {
            if contains_seq(s.skip(1), p) {
                let i = choose|i: int|
                    0 <= i && i + p.len() <= s.skip(1).len()
                        && #[trigger] s.skip(1).subrange(i, i + p.len()) == p;
                assert(s.subrange(i + 1, i + 1 + p.len()) =~= s.skip(1).subrange(i, i + p.len()));
                assert(contains_seq(s, p));
            }
        }
        lemma_remove_all_absent(s.skip(1), p);
        assert(seq![s[0]] + s.skip(1) =~= s);
    }
}

/// Removal never introduces a byte that was not in the input: a pointwise
/// property of the bytes is preserved.
proof fn lemma_remove_all_no_upper(s: Seq<u8>, p: Seq<u8>)
    requires
        forall|j: int| 0 <= j < s.len() ==> lower_byte(#[trigger] s[j]) == s[j],
    ensures
        forall|j: int| 0 <= j < remove_all(s, p).len()
            ==> lower_byte(#[trigger] remove_all(s, p)[j]) == remove_all(s, p)[j],
    decreases s.len(),
{
    if p.len() == 0 || s.len() < p.len() {
        assert(remove_all(s, p) == s);
    } else if s.take(p.len() as int) == p {
        assert(forall|j: int| 0 <= j < s.skip(p.len() as int).len()
            ==> lower_byte(#[trigger] s.skip(p.len() as int)[j]) == s.skip(p.len() as int)[j]);
        lemma_remove_all_no_upper(s.skip(p.len() as int), p);
        assert(remove_all(s, p) == remove_all(s.skip(p.len() as int), p));
    } else {
        assert(forall|j: int| 0 <= j < s.skip(1).len()
            ==> lower_byte(#[trigger] s.skip(1)[j]) == s.skip(1)[j]);
        lemma_remove_all_no_upper(s.skip(1), p);
        let r = seq![s[0]] + remove_all(s.skip(1), p);
        assert(remove_all(s, p) == r);
        assert(forall|j: int| 0 <= j < r.len() ==> lower_byte(#[trigger] r[j]) == r[j]) by {
            assert(r[0] == s[0]);
            assert(forall|j: int| 1 <= j < r.len() ==> r[j] == remove_all(s.skip(1), p)[j - 1]);
        }
    }
}

/// The phrase passes preserve "already lowercase" as well.
proof fn lemma_remove_phrases_no_upper(s: Seq<u8>, ps: Seq<Seq<u8>>)
    requires
        forall|j: int| 0 <= j < s.len() ==> lower_byte(#[trigger] s[j]) == s[j],
    ensures
        forall|j: int| 0 <= j < remove_phrases(s, ps).len()
            ==> lower_byte(#[trigger] remove_phrases(s, ps)[j]) == remove_phrases(s, ps)[j],
    decreases ps.len(),
{
    if ps.len() == 0 {
        assert(remove_phrases(s, ps) == s);
    } else {
        lemma_remove_all_no_upper(s, ps[0]);
        lemma_remove_phrases_no_upper(remove_all(s, ps[0]), ps.skip(1));
        assert(remove_phrases(s, ps) == remove_phrases(remove_all(s, ps[0]), ps.skip(1)));
    }
}

/// If no phrase of `ps` occurs in `s`, the passes leave `s` unchanged.
proof fn lemma_remove_phrases_absent(s: Seq<u8>, ps: Seq<Seq<u8>>)
    requires
        forall|k: int| 0 <= k < ps.len() ==> (#[trigger] ps[k]).len() > 0,
        forall|k: int| 0 <= k < ps.len() ==> !contains_seq(s, #[trigger] ps[k]),
    ensures
        remove_phrases(s, ps) == s,
    decreases ps.len(),
{
    if ps.len() == 0 {
    } else {
        lemma_remove_all_absent(s, ps[0]);
        assert(forall|k: int| 0 <= k < ps.skip(1).len() ==> (#[trigger] ps.skip(1)[k]).len() > 0);
        assert(forall|k: int| 0 <= k < ps.skip(1).len()
            ==> !contains_seq(s, #[trigger] ps.skip(1)[k]));
        lemma_remove_phrases_absent(s, ps.skip(1));
    }
}

/// Normalization is idempotent on every input whose normal form contains no
/// stop phrase. (It is not idempotent on all inputs: removing one phrase can
/// splice a later phrase together, which only a second pass would remove.)
pub proof fn lemma_normalize_idempotent(s: Seq<u8>)
    requires
        forall|k: int| 0 <= k < stop_phrases().len()
            ==> !contains_seq(norm(s), #[trigger] stop_phrases()[k]),
    ensures
        norm(norm(s)) == norm(s),
{
    assert(forall|j: int| 0 <= j < lower(s).len()
        ==> lower_byte(#[trigger] lower(s)[j]) == lower(s)[j]);
    lemma_remove_phrases_no_upper(lower(s), stop_phrases());
    assert(lower(norm(s)) =~= norm(s));
    assert(forall|k: int| 0 <= k < stop_phrases().len()
        ==> (#[trigger] stop_phrases()[k]).len() > 0);
    lemma_remove_phrases_absent(norm(s), stop_phrases());
}

} // verus!
