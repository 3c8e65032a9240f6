//! The data model: a generated poll candidate (one question, four answers)
//! and the append-only history of previously accepted candidates.

use vstd::prelude::*;

verus! {

/// Mathematical image of a candidate.
pub ghost struct AbsCandidate {
    pub question: Seq<u8>,
    pub answers: Seq<Seq<u8>>,
}

/// A generated poll: a question and its candidate answers. A well-formed
/// candidate has exactly four answers; the parser enforces that shape.
pub struct Candidate {
    pub question: Vec<u8>,
    pub answers: Vec<Vec<u8>>,
}

impl View for Candidate {
    type V = AbsCandidate;

    open spec fn view(&self) -> AbsCandidate {
        AbsCandidate {
            question: self.question@,
            answers: self.answers@.map_values(|a: Vec<u8>| a@),
        }
    }
}

/// The number of answers a candidate must carry.
pub open spec fn answer_count() -> nat {
    4
}

/// The longest answer the validator accepts, in bytes.
pub open spec fn answer_limit() -> nat {
    50
}

pub open spec fn candidate_wf(c: AbsCandidate) -> bool {
    c.answers.len() == answer_count()
}

/// Every answer stays within the length limit.
pub open spec fn answers_ok(c: AbsCandidate) -> bool {
    forall|k: int| 0 <= k < c.answers.len() ==> (#[trigger] c.answers[k]).len() <= answer_limit()
}

impl Candidate {
    pub open spec fn wf(&self) -> bool {
        candidate_wf(self@)
    }

    /// An equal candidate, owned separately.
    pub fn duplicate(&self) -> (r: Candidate)
        ensures
            r@ == self@,
    {
        let question = crate::text::copy_bytes(&self.question);
        let mut answers: Vec<Vec<u8>> = Vec::new();
        let mut k: usize = 0;
        while k < self.answers.len()
            invariant
                k <= self.answers@.len(),
                answers@.len() == k,
                forall|j: int| 0 <= j < k
                    ==> (#[trigger] answers@[j])@ == self.answers@[j]@,
            decreases self.answers@.len() - k,
        {
            answers.push(crate::text::copy_bytes(&self.answers[k]));
            k += 1;
        }
        let r = Candidate { question, answers };
        proof {
            assert(r@.answers =~= self@.answers);
        }
        r
    }

    /// The structural check on a fresh candidate: it fails exactly when some
    /// answer is longer than the limit. Nothing else is checked here.
    pub fn validate(&self) -> (r: bool)
        ensures
            r == answers_ok(self@),
    {
        let mut k: usize = 0;
        while k < self.answers.len()
            invariant
                k <= self.answers@.len(),
                forall|j: int| 0 <= j < k ==> (#[trigger] self.answers@[j])@.len() <= answer_limit(),
            decreases self.answers@.len() - k,
        {
            if self.answers[k].len() > 50 {
                proof {
                    assert(self@.answers[k as int].len() > answer_limit());
                }
                return false;
            }
            k += 1;
        }
        proof {
            assert(forall|j: int| 0 <= j < self@.answers.len()
                ==> (#[trigger] self@.answers[j]).len() <= answer_limit());
        }
        true
    }
}

/// The questions of a history, in acceptance order.
pub open spec fn questions_of(h: Seq<AbsCandidate>) -> Seq<Seq<u8>> {
    h.map_values(|c: AbsCandidate| c.question)
}

/// The last `k` entries of `qs`, in original order; all of `qs` when it is
/// shorter than `k`.
pub open spec fn window_of(qs: Seq<Seq<u8>>, k: nat) -> Seq<Seq<u8>> {
    if qs.len() <= k {
        qs
    } else {
        qs.skip(qs.len() - k)
    }
}

/// The ordered, append-only record of previously accepted candidates.
pub struct HistoryStore {
    pub records: Vec<Candidate>,
}

impl View for HistoryStore {
    type V = Seq<AbsCandidate>;

    open spec fn view(&self) -> Seq<AbsCandidate> {
        self.records@.map_values(|c: Candidate| c@)
    }
}

impl HistoryStore {
    pub open spec fn wf(&self) -> bool {
        forall|i: int| 0 <= i < self@.len() ==> candidate_wf(#[trigger] self@[i])
    }

    pub fn empty() -> (r: HistoryStore)
        ensures
            r@ == Seq::<AbsCandidate>::empty(),
            r.wf(),
    {
        let r = HistoryStore { records: Vec::new() };
        proof {
            assert(r@ =~= Seq::<AbsCandidate>::empty());
        }
        r
    }

    /// Appends one accepted candidate; nothing is ever removed or reordered.
    pub fn push(&mut self, c: Candidate)
        requires
            c.wf(),
            old(self).wf(),
        ensures
            final(self)@ == old(self)@.push(c@),
            final(self).wf(),
    {
        self.records.push(c);
        proof {
            assert(self@ =~= old(self)@.push(c@));
        }
    }

    /// The sliding window for remote confirmation: the questions of the last
    /// `k` records, oldest first. Never more than `min(k, len)` entries.
    pub fn recent_questions(&self, k: usize) -> (r: Vec<Vec<u8>>)
        ensures
            r@.map_values(|q: Vec<u8>| q@) == window_of(questions_of(self@), k as nat),
            r@.len() == if self@.len() <= k { self@.len() } else { k as nat },
    {
        let n = self.records.len();
        let start = if n <= k {
            0
        } else {
            n - k
        };
        let mut r: Vec<Vec<u8>> = Vec::new();
        let mut i: usize = start;
        while i < n
            invariant
                start <= i <= n,
                n == self.records@.len(),
                r@.len() == i - start,
                forall|j: int| 0 <= j < r@.len()
                    ==> (#[trigger] r@[j])@ == self@[start + j].question,
            decreases n - i,
        {
            let q = crate::text::copy_bytes(&self.records[i].question);
            r.push(q);
            proof {
                assert(self@[i as int] == self.records@[i as int]@);
            }
            i += 1;
        }
        proof {
            assert(r@.map_values(|q: Vec<u8>| q@)
                =~= window_of(questions_of(self@), k as nat)) by {
                assert(forall|j: int| 0 <= j < r@.len()
                    ==> r@.map_values(|q: Vec<u8>| q@)[j]
                        == (#[trigger] r@[j])@);
                assert(forall|j: int| 0 <= j < r@.len()
                    ==> #[trigger] window_of(questions_of(self@), k as nat)[j]
                        == questions_of(self@)[start + j]);
                assert(forall|j: int| 0 <= j < self@.len()
                    ==> #[trigger] questions_of(self@)[j] == self@[j].question);
            }
        }
        r
    }
}

} // verus!
