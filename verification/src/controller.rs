//! The retry controller: a bounded state machine that drives one attempt at
//! a time. Each attempt parses a freshly generated candidate, validates it,
//! filters it locally against the whole history and, when a window exists,
//! defers to the remote confirmer; a candidate that clears every stage is
//! accepted and appended to the history. Rejected attempts consume the
//! attempt budget; when it is gone the controller is exhausted, having
//! touched nothing.

use vstd::prelude::*;
use crate::poll::AbsCandidate;
use crate::poll::Candidate;
use crate::poll::HistoryStore;
use crate::poll::answers_ok;
use crate::poll::questions_of;
use crate::poll::window_of;
use crate::similarity::best_score;
use crate::similarity::frac_gt;
use crate::similarity::local_similarity;
use crate::codec::parse_candidate;
use crate::codec::parse_candidate_full;
use crate::codec::ser_store;
use crate::codec::serialize_store;
use crate::remote::build_similarity_prompt;
use crate::remote::clamped_score_of;
use crate::remote::parse_remote_score;
use crate::remote::parse_similarity_reply;
use crate::remote::sim_prompt;

verus! {

/// The tunable constants of a run. The standard values are the ones the
/// pipeline has always used.
pub struct Config {
    pub max_attempts: u64,
    pub window: usize,
    pub local_num: usize,
    pub local_den: usize,
    pub remote_num: usize,
    pub remote_den: usize,
}

impl Config {
    pub open spec fn wf(&self) -> bool {
        &&& self.max_attempts >= 1
        &&& self.local_den > 0
        &&& self.remote_den > 0
        &&& self.window + 2 <= u64::MAX
    }

    /// The standard configuration: 8 attempts, a window of 8, a local
    /// threshold of 0.49 and a remote threshold of 0.35.
    pub fn standard() -> (c: Config)
        ensures
            c.max_attempts == 8,
            c.window == 8,
            c.local_num == 49,
            c.local_den == 100,
            c.remote_num == 35,
            c.remote_den == 100,
            c.wf(),
    {
        Config {
            max_attempts: 8,
            window: 8,
            local_num: 49,
            local_den: 100,
            remote_num: 35,
            remote_den: 100,
        }
    }
}

/// Why an attempt was given up.
#[derive(Clone, Copy, Debug, PartialEq, Eq, Structural)]
pub enum Rejection {
    AnswerTooLong,
    LocallySimilar,
    RemotelySimilar,
}

/// Where the controller stands.
pub enum Phase {
    Generating,
    AwaitingRemote(Candidate),
    Accepted(Candidate),
    Exhausted,
    Failed,
}

pub ghost enum AbsPhase {
    Generating,
    AwaitingRemote(AbsCandidate),
    Accepted(AbsCandidate),
    Exhausted,
    Failed,
}

/// The controller as the proofs see it.
pub ghost struct AbsController {
    pub attempts: nat,
    pub max_attempts: nat,
    pub history: Seq<AbsCandidate>,
    pub phase: AbsPhase,
}

/// One rejected attempt: the budget shrinks; exhaustion is reached exactly
/// when it is gone. The history is untouched.
pub open spec fn spec_reject(s: AbsController) -> AbsController {
    AbsController {
        attempts: s.attempts + 1,
        phase: if s.attempts + 1 >= s.max_attempts {
            AbsPhase::Exhausted
        } else {
            AbsPhase::Generating
        },
        ..s
    }
}

/// Acceptance: the candidate is appended to the history and the run stops.
pub open spec fn spec_accept(s: AbsController, c: AbsCandidate) -> AbsController {
    AbsController { phase: AbsPhase::Accepted(c), history: s.history.push(c), ..s }
}

/// `n` rejected attempts in a row.
pub open spec fn spec_reject_iter(s: AbsController, n: nat) -> AbsController
    decreases n,
{
    if n == 0 {
        s
    } else {
        spec_reject_iter(spec_reject(s), (n - 1) as nat)
    }
}

/// If every candidate is rejected, the controller terminates after exactly
/// its attempt budget, exhausted, with the history unchanged. A rejection
/// step never enters the accepting phase, so no publish happens and nothing
/// is ever appended along the way.
pub proof fn lemma_exhaustion(s: AbsController, n: nat)
    requires
        s.phase is Generating,
        s.attempts + n == s.max_attempts,
        n >= 1,
    ensures
        spec_reject_iter(s, n).phase is Exhausted,
        spec_reject_iter(s, n).history == s.history,
        spec_reject_iter(s, n).attempts == s.max_attempts,
    decreases n,
{
    let s1 = spec_reject(s);
    if n == 1 {
        assert(s1.phase is Exhausted);
        assert(spec_reject_iter(s, 1) == s1);
    } else {
        lemma_exhaustion(s1, (n - 1) as nat);
    }
}

/// What one driver step asks of the surroundings.
pub enum Step {
    /// Send this request to the remote confirmer and come back with its reply.
    NeedRemote(Vec<u8>),
    /// The candidate was accepted and recorded: publish and persist.
    Accepted,
    /// The attempt was rejected; generate a fresh candidate.
    Retrying(Rejection),
    /// The attempt was rejected and the budget is gone.
    GaveUp(Rejection),
    /// The reply could not be parsed; the run aborts.
    Fatal,
}

/// A rejected attempt, as the contracts state it.
pub open spec fn rejected_outcome(
    s0: AbsController,
    s1: AbsController,
    r: Step,
    why: Rejection,
) -> bool {
    &&& s1 == spec_reject(s0)
    &&& (if s0.attempts + 1 >= s0.max_attempts {
        r == Step::GaveUp(why)
    } else {
        r == Step::Retrying(why)
    })
}

pub struct Controller {
    pub cfg: Config,
    pub attempts: u64,
    pub history: HistoryStore,
    pub phase: Phase,
}

impl Controller {
    pub open spec fn abs(&self) -> AbsController {
        AbsController {
            attempts: self.attempts as nat,
            max_attempts: self.cfg.max_attempts as nat,
            history: self.history@,
            phase: match self.phase {
                Phase::Generating => AbsPhase::Generating,
                Phase::AwaitingRemote(c) => AbsPhase::AwaitingRemote(c@),
                Phase::Accepted(c) => AbsPhase::Accepted(c@),
                Phase::Exhausted => AbsPhase::Exhausted,
                Phase::Failed => AbsPhase::Failed,
            },
        }
    }

    pub open spec fn wf(&self) -> bool {
        &&& self.cfg.wf()
        &&& self.history.wf()
        &&& self.attempts <= self.cfg.max_attempts
        &&& (match self.phase {
            Phase::Generating => self.attempts < self.cfg.max_attempts,
            Phase::AwaitingRemote(c) => c.wf() && self.attempts < self.cfg.max_attempts,
            Phase::Accepted(c) => c.wf(),
            _ => true,
        })
    }

    /// A fresh run over a loaded history.
    pub fn new(cfg: Config, history: HistoryStore) -> (r: Controller)
        requires
            cfg.wf(),
            history.wf(),
        ensures
            r.wf(),
            r.abs() == (AbsController {
                attempts: 0,
                max_attempts: cfg.max_attempts as nat,
                history: history@,
                phase: AbsPhase::Generating,
            }),
    {
        Controller { cfg, attempts: 0, history, phase: Phase::Generating }
    }

    fn note_rejection(&mut self, why: Rejection) -> (r: Step)
        requires
            old(self).wf(),
            old(self).attempts < old(self).cfg.max_attempts,
        ensures
            final(self).wf(),
            final(self).cfg == old(self).cfg,
            rejected_outcome(old(self).abs(), final(self).abs(), r, why),
    {
        self.attempts = self.attempts + 1;
        if self.attempts >= self.cfg.max_attempts {
            self.phase = Phase::Exhausted;
            Step::GaveUp(why)
        } else {
            self.phase = Phase::Generating;
            Step::Retrying(why)
        }
    }

    fn accept(&mut self, cand: Candidate) -> (r: Step)
        requires
            old(self).wf(),
            cand.wf(),
        ensures
            final(self).wf(),
            final(self).cfg == old(self).cfg,
            final(self).abs() == spec_accept(old(self).abs(), cand@),
            r == Step::Accepted,
    {
        let dup = cand.duplicate();
        self.history.push(dup);
        self.phase = Phase::Accepted(cand);
        Step::Accepted
    }

    /// One generated reply arrives: parse, validate, filter locally, and
    /// either accept (empty window), ask for remote confirmation, or reject.
    pub fn on_generated(&mut self, raw: &Vec<u8>) -> (r: Step)
        requires
            old(self).wf(),
            old(self).phase is Generating,
        ensures
            final(self).wf(),
            final(self).cfg == old(self).cfg,
            ({
                let s0 = old(self).abs();
                let s1 = final(self).abs();
                let k = old(self).cfg.window as nat;
                match parse_candidate_full(raw@) {
                    None => r == Step::Fatal && s1 == (AbsController { phase: AbsPhase::Failed, ..s0 }),
                    Some(c) => {
                        if !answers_ok(c) {
                            rejected_outcome(s0, s1, r, Rejection::AnswerTooLong)
                        } else if frac_gt(
                            best_score(c.question, questions_of(s0.history)),
                            (old(self).cfg.local_num as nat, old(self).cfg.local_den as nat),
                        ) {
                            rejected_outcome(s0, s1, r, Rejection::LocallySimilar)
                        } else if window_of(questions_of(s0.history), k).len() == 0 {
                            r == Step::Accepted && s1 == spec_accept(s0, c)
                        } else {
                            &&& (r matches Step::NeedRemote(p)
                                && p@ == sim_prompt(c.question, window_of(questions_of(s0.history), k)))
                            &&& s1 == (AbsController { phase: AbsPhase::AwaitingRemote(c), ..s0 })
                        }
                    },
                }
            }),
    {
        let cand = match parse_candidate(raw) {
            None => {
                self.phase = Phase::Failed;
                return Step::Fatal;
            },
            Some(c) => c,
        };
        if !cand.validate() {
            return self.note_rejection(Rejection::AnswerTooLong);
        }
        let score = local_similarity(&cand.question, &self.history);
        if score.above(self.cfg.local_num, self.cfg.local_den) {
            return self.note_rejection(Rejection::LocallySimilar);
        }
        let window = self.history.recent_questions(self.cfg.window);
        if window.len() == 0 {
            return self.accept(cand);
        }
        let prompt = build_similarity_prompt(&cand.question, &window);
        self.phase = Phase::AwaitingRemote(cand);
        Step::NeedRemote(prompt)
    }

    /// The remote confirmer's reply arrives: parse the score, then accept or
    /// reject the pending candidate.
    pub fn on_remote(&mut self, raw: &Vec<u8>) -> (r: Step)
        requires
            old(self).wf(),
            old(self).phase is AwaitingRemote,
        ensures
            final(self).wf(),
            final(self).cfg == old(self).cfg,
            ({
                let s0 = old(self).abs();
                let s1 = final(self).abs();
                let c = s0.phase->AwaitingRemote_0;
                match parse_similarity_reply(raw@) {
                    None => r == Step::Fatal && s1 == (AbsController { phase: AbsPhase::Failed, ..s0 }),
                    Some((neg, ip, fp)) => {
                        if frac_gt(
                            clamped_score_of(neg, ip, fp),
                            (old(self).cfg.remote_num as nat, old(self).cfg.remote_den as nat),
                        ) {
                            rejected_outcome(s0, s1, r, Rejection::RemotelySimilar)
                        } else {
                            r == Step::Accepted && s1 == spec_accept(s0, c)
                        }
                    },
                }
            }),
    {
        let cand = match &self.phase {
            Phase::AwaitingRemote(c) => c.duplicate(),
            _ => {
                proof {
                    assert(false);
                }
                return Step::Fatal;
            },
        };
        match parse_remote_score(raw) {
            None => {
                self.phase = Phase::Failed;
                Step::Fatal
            },
            Some(sc) => {
                if sc.above(self.cfg.remote_num, self.cfg.remote_den) {
                    self.note_rejection(Rejection::RemotelySimilar)
                } else {
                    self.accept(cand)
                }
            },
        }
    }

    /// The accepted candidate, once the run has accepted one.
    pub fn accepted_candidate(&self) -> (r: Option<&Candidate>)
        requires
            self.wf(),
        ensures
            (r is Some) == (self.abs().phase is Accepted),
            r matches Some(c) ==> self.abs().phase == AbsPhase::Accepted(c@) && c.wf(),
    {
        match &self.phase {
            Phase::Accepted(c) => Some(c),
            _ => None,
        }
    }

    /// The current history, serialized for persisting.
    pub fn history_bytes(&self) -> (r: Vec<u8>)
        requires
            self.wf(),
        ensures
            r@ == ser_store(self.abs().history),
    {
        serialize_store(&self.history)
    }
}

} // verus!
