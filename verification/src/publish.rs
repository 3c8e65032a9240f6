//! The publish request: the form entries of the poll submission, built from
//! an accepted candidate. Sending them is the surrounding program's business;
//! what is sent is pinned down here.

use vstd::prelude::*;
use crate::poll::AbsCandidate;
use crate::poll::Candidate;
use crate::remote::dec_bytes;
use crate::remote::push_dec;
use crate::text::copy_bytes;

verus! {

pub open spec fn k_status() -> Seq<u8> {
    seq![115u8, 116u8, 97u8, 116u8, 117u8, 115u8]
}

pub open spec fn k_visibility() -> Seq<u8> {
    seq![118u8, 105u8, 115u8, 105u8, 98u8, 105u8, 108u8, 105u8, 116u8, 121u8]
}

pub open spec fn v_public() -> Seq<u8> {
    seq![112u8, 117u8, 98u8, 108u8, 105u8, 99u8]
}

pub open spec fn k_language() -> Seq<u8> {
    seq![108u8, 97u8, 110u8, 103u8, 117u8, 97u8, 103u8, 101u8]
}

pub open spec fn v_en() -> Seq<u8> {
    seq![101u8, 110u8]
}

pub open spec fn k_poll_option() -> Seq<u8> {
    seq![
        112u8, 111u8, 108u8, 108u8, 91u8, 111u8, 112u8, 116u8, 105u8, 111u8, 110u8, 115u8, 93u8,
        91u8, 93u8,
    ]
}

pub open spec fn k_poll_expires() -> Seq<u8> {
    seq![
        112u8, 111u8, 108u8, 108u8, 91u8, 101u8, 120u8, 112u8, 105u8, 114u8, 101u8, 115u8, 95u8,
        105u8, 110u8, 93u8,
    ]
}

/// The form entries of one poll submission, in order: the question as the
/// status, public visibility, English, the four answers as poll options, and
/// the poll duration in seconds.
pub open spec fn poll_params_spec(c: AbsCandidate, expires: nat) -> Seq<(Seq<u8>, Seq<u8>)> {
    seq![
        (k_status(), c.question),
        (k_visibility(), v_public()),
        (k_language(), v_en()),
        (k_poll_option(), c.answers[0]),
        (k_poll_option(), c.answers[1]),
        (k_poll_option(), c.answers[2]),
        (k_poll_option(), c.answers[3]),
        (k_poll_expires(), dec_bytes(expires)),
    ]
}

/// Builds the form entries for an accepted candidate.
pub fn poll_params(c: &Candidate, expires: u64) -> (r: Vec<(Vec<u8>, Vec<u8>)>)
    requires
        c.wf(),
    ensures
        r@.map_values(|p: (Vec<u8>, Vec<u8>)| (p.0@, p.1@)) == poll_params_spec(c@, expires as nat),
{
    let mut r: Vec<(Vec<u8>, Vec<u8>)> = Vec::new();
    let ks: Vec<u8> = vec![115u8, 116u8, 97u8, 116u8, 117u8, 115u8];
    r.push((ks, copy_bytes(&c.question)));
    let kv: Vec<u8> = vec![118u8, 105u8, 115u8, 105u8, 98u8, 105u8, 108u8, 105u8, 116u8, 121u8];
    let vp: Vec<u8> = vec![112u8, 117u8, 98u8, 108u8, 105u8, 99u8];
    r.push((kv, vp));
    let kl: Vec<u8> = vec![108u8, 97u8, 110u8, 103u8, 117u8, 97u8, 103u8, 101u8];
    let ve: Vec<u8> = vec![101u8, 110u8];
    r.push((kl, ve));
    let ko0: Vec<u8> = vec![
        112u8, 111u8, 108u8, 108u8, 91u8, 111u8, 112u8, 116u8, 105u8, 111u8, 110u8, 115u8, 93u8,
        91u8, 93u8,
    ];
    r.push((ko0, copy_bytes(&c.answers[0])));
    let ko1: Vec<u8> = vec![
        112u8, 111u8, 108u8, 108u8, 91u8, 111u8, 112u8, 116u8, 105u8, 111u8, 110u8, 115u8, 93u8,
        91u8, 93u8,
    ];
    r.push((ko1, copy_bytes(&c.answers[1])));
    let ko2: Vec<u8> = vec![
        112u8, 111u8, 108u8, 108u8, 91u8, 111u8, 112u8, 116u8, 105u8, 111u8, 110u8, 115u8, 93u8,
        91u8, 93u8,
    ];
    r.push((ko2, copy_bytes(&c.answers[2])));
    let ko3: Vec<u8> = vec![
        112u8, 111u8, 108u8, 108u8, 91u8, 111u8, 112u8, 116u8, 105u8, 111u8, 110u8, 115u8, 93u8,
        91u8, 93u8,
    ];
    r.push((ko3, copy_bytes(&c.answers[3])));
    let ke: Vec<u8> = vec![
        112u8, 111u8, 108u8, 108u8, 91u8, 101u8, 120u8, 112u8, 105u8, 114u8, 101u8, 115u8, 95u8,
        105u8, 110u8, 93u8,
    ];
    let mut ev: Vec<u8> = Vec::new();
    push_dec(&mut ev, expires);
    r.push((ke, ev));
    proof {
        assert(c@.answers[0] == c.answers@[0]@);
        assert(c@.answers[1] == c.answers@[1]@);
        assert(c@.answers[2] == c.answers@[2]@);
        assert(c@.answers[3] == c.answers@[3]@);
        assert(r@.map_values(|p: (Vec<u8>, Vec<u8>)| (p.0@, p.1@))
            =~~= poll_params_spec(c@, expires as nat));
    }
    r
}

} // verus!
