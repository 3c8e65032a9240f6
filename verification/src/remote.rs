//! The remote confirmation exchange: the textual request that asks the
//! language-model collaborator for the maximum pairwise similarity between
//! the candidate and the windowed history questions, and the parser for its
//! reply `{"similarity": NUMBER}`. The number is read exactly, as a decimal,
//! and clamped into [0, 1]; no floating point is involved.

use vstd::prelude::*;
use crate::codec::colon_tok;
use crate::codec::lbrace;
use crate::codec::rbrace;
use crate::codec::skip_ws;
use crate::codec::tok;
use crate::similarity::Score;

verus! {

/// The decimal digits of `n`, most significant first.
pub open spec fn dec_bytes(n: nat) -> Seq<u8>
    decreases n,
{
    if n < 10 {
        seq![(48 + n) as u8]
    } else {
        dec_bytes(n / 10).push((48 + n % 10) as u8)
    }
}

pub open spec fn lit_intro() -> Seq<u8> {
    seq![
        82u8, 101u8, 115u8, 112u8, 111u8, 110u8, 100u8, 32u8, 111u8, 110u8, 108u8, 121u8, 32u8,
        119u8, 105u8, 116u8, 104u8, 32u8, 74u8, 83u8, 79u8, 78u8, 32u8, 119u8, 105u8, 116u8,
        104u8, 32u8, 102u8, 108u8, 111u8, 97u8, 116u8, 32u8, 102u8, 105u8, 101u8, 108u8, 100u8,
        32u8, 34u8, 115u8, 105u8, 109u8, 105u8, 108u8, 97u8, 114u8, 105u8, 116u8, 121u8, 34u8,
        46u8, 32u8, 67u8, 111u8, 109u8, 112u8, 97u8, 114u8, 101u8, 32u8, 115u8, 105u8, 109u8,
        105u8, 108u8, 97u8, 114u8, 105u8, 116u8, 121u8, 32u8, 111u8, 102u8, 32u8, 102u8, 105u8,
        114u8, 115u8, 116u8, 32u8, 115u8, 101u8, 110u8, 116u8, 101u8, 110u8, 99u8, 101u8, 32u8,
        119u8, 105u8, 116u8, 104u8, 32u8, 111u8, 116u8, 104u8, 101u8, 114u8, 32u8, 115u8, 101u8,
        110u8, 116u8, 101u8, 110u8, 99u8, 101u8, 115u8, 44u8, 32u8, 114u8, 101u8, 116u8, 117u8,
        114u8, 110u8, 32u8, 109u8, 97u8, 120u8, 32u8, 118u8, 97u8, 108u8, 117u8, 101u8, 46u8,
    ]
}

pub open spec fn lit_sentence() -> Seq<u8> {
    seq![83u8, 101u8, 110u8, 116u8, 101u8, 110u8, 99u8, 101u8, 32u8]
}

pub open spec fn lit_mid() -> Seq<u8> {
    seq![58u8, 32u8, 34u8]
}

pub open spec fn lit_end() -> Seq<u8> {
    seq![34u8, 10u8]
}

pub open spec fn q_similarity() -> Seq<u8> {
    seq![34u8, 115u8, 105u8, 109u8, 105u8, 108u8, 97u8, 114u8, 105u8, 116u8, 121u8, 34u8]
}

/// One enumerated sentence line.
pub open spec fn sentence_line(n: nat, q: Seq<u8>) -> Seq<u8> {
    lit_sentence() + dec_bytes(n) + lit_mid() + q + lit_end()
}

/// The lines for the windowed questions, numbered from `k + 2`.
pub open spec fn window_lines(ws: Seq<Seq<u8>>, k: int) -> Seq<u8>
    decreases ws.len() - k,
{
    if k < 0 || k >= ws.len() {
        Seq::empty()
    } else {
        sentence_line((k + 2) as nat, ws[k]) + window_lines(ws, k + 1)
    }
}

/// The whole remote request: the instruction, the candidate as sentence 1,
/// and each windowed question as the following sentences.
pub open spec fn sim_prompt(cq: Seq<u8>, ws: Seq<Seq<u8>>) -> Seq<u8> {
    lit_intro() + seq![10u8] + sentence_line(1, cq) + window_lines(ws, 0)
}

/// Appends the decimal digits of `n`.
pub fn push_dec(out: &mut Vec<u8>, n: u64)
    ensures
        final(out)@ == old(out)@ + dec_bytes(n as nat),
    decreases n,
{
    if n < 10 {
        out.push(48 + n as u8);
        proof {
            assert(out@ =~= old(out)@ + dec_bytes(n as nat));
        }
    } else {
        push_dec(out, n / 10);
        out.push(48 + (n % 10) as u8);
        proof {
            assert(out@ =~= old(out)@ + dec_bytes(n as nat));
        }
    }
}

/// Appends a byte string.
fn push_bytes(out: &mut Vec<u8>, q: &Vec<u8>)
    ensures
        final(out)@ == old(out)@ + q@,
{
    let mut i: usize = 0;
    proof {
        assert(out@ =~= old(out)@ + q@.take(0));
    }
    while i < q.len()
        invariant
            i <= q@.len(),
            out@ == old(out)@ + q@.take(i as int),
        decreases q@.len() - i,
    {
        out.push(q[i]);
        proof {
            assert(out@ =~= old(out)@ + q@.take(i + 1));
        }
        i += 1;
    }
    proof {
        assert(q@.take(q@.len() as int) =~= q@);
    }
}

fn push_lit_sentence(out: &mut Vec<u8>)
    ensures
        final(out)@ == old(out)@ + lit_sentence(),
{
    let mut t: Vec<u8> = vec![83u8, 101u8, 110u8, 116u8, 101u8, 110u8, 99u8, 101u8, 32u8];
    proof {
        assert(t@ =~= lit_sentence());
    }
    out.append(&mut t);
}

fn push_line_tail(out: &mut Vec<u8>, q: &Vec<u8>)
    ensures
        final(out)@ == old(out)@ + lit_mid() + q@ + lit_end(),
{
    let mut m: Vec<u8> = vec![58u8, 32u8, 34u8];
    proof {
        assert(m@ =~= lit_mid());
    }
    out.append(&mut m);
    push_bytes(out, q);
    let mut e: Vec<u8> = vec![34u8, 10u8];
    proof {
        assert(e@ =~= lit_end());
    }
    out.append(&mut e);
}

/// Builds the remote request for a candidate question and a window.
pub fn build_similarity_prompt(cq: &Vec<u8>, ws: &Vec<Vec<u8>>) -> (r: Vec<u8>)
    requires
        ws@.len() + 2 <= u64::MAX,
    ensures
        r@ == sim_prompt(cq@, ws@.map_values(|q: Vec<u8>| q@)),
{
    let ghost wsv = ws@.map_values(|q: Vec<u8>| q@);
    let mut out: Vec<u8> = Vec::new();
    let mut intro: Vec<u8> = vec![
        82u8, 101u8, 115u8, 112u8, 111u8, 110u8, 100u8, 32u8, 111u8, 110u8, 108u8, 121u8, 32u8,
        119u8, 105u8, 116u8, 104u8, 32u8, 74u8, 83u8, 79u8, 78u8, 32u8, 119u8, 105u8, 116u8,
        104u8, 32u8, 102u8, 108u8, 111u8, 97u8, 116u8, 32u8, 102u8, 105u8, 101u8, 108u8, 100u8,
        32u8, 34u8, 115u8, 105u8, 109u8, 105u8, 108u8, 97u8, 114u8, 105u8, 116u8, 121u8, 34u8,
        46u8, 32u8, 67u8, 111u8, 109u8, 112u8, 97u8, 114u8, 101u8, 32u8, 115u8, 105u8, 109u8,
        105u8, 108u8, 97u8, 114u8, 105u8, 116u8, 121u8, 32u8, 111u8, 102u8, 32u8, 102u8, 105u8,
        114u8, 115u8, 116u8, 32u8, 115u8, 101u8, 110u8, 116u8, 101u8, 110u8, 99u8, 101u8, 32u8,
        119u8, 105u8, 116u8, 104u8, 32u8, 111u8, 116u8, 104u8, 101u8, 114u8, 32u8, 115u8, 101u8,
        110u8, 116u8, 101u8, 110u8, 99u8, 101u8, 115u8, 44u8, 32u8, 114u8, 101u8, 116u8, 117u8,
        114u8, 110u8, 32u8, 109u8, 97u8, 120u8, 32u8, 118u8, 97u8, 108u8, 117u8, 101u8, 46u8,
    ];
    proof {
        assert(intro@ =~= lit_intro());
    }
    out.append(&mut intro);
    out.push(10);
    push_lit_sentence(&mut out);
    push_dec(&mut out, 1);
    proof {
        assert(dec_bytes(1) =~= seq![49u8]);
    }
    push_line_tail(&mut out, cq);
    proof {
        assert(out@ =~= lit_intro() + seq![10u8] + sentence_line(1, cq@));
    }
    let mut i: usize = 0;
    while i < ws.len()
        invariant
            i <= ws@.len(),
            wsv == ws@.map_values(|q: Vec<u8>| q@),
            wsv.len() == ws@.len(),
            ws@.len() + 2 <= u64::MAX,
            out@ + window_lines(wsv, i as int) == sim_prompt(cq@, wsv),
        decreases ws@.len() - i,
    {
        let ghost pre = out@;
        push_lit_sentence(&mut out);
        push_dec(&mut out, i as u64 + 2);
        push_line_tail(&mut out, &ws[i]);
        proof {
            assert(wsv[i as int] == ws@[i as int]@);
            assert(out@ =~= pre + sentence_line((i + 2) as nat, wsv[i as int]));
            assert(out@ + window_lines(wsv, i + 1)
                =~= pre + window_lines(wsv, i as int));
        }
        i += 1;
    }
    proof {
        assert(window_lines(wsv, wsv.len() as int) =~= Seq::<u8>::empty());
        assert(out@ + Seq::<u8>::empty() =~= out@);
    }
    out
}

pub open spec fn is_digit(b: u8) -> bool {
    48 <= b <= 57
}

/// The longest digit prefix of `s`, and what follows it.
pub open spec fn spec_digits(s: Seq<u8>) -> (Seq<u8>, Seq<u8>)
    decreases s.len(),
{
    if s.len() > 0 && is_digit(s[0]) {
        let (d, r) = spec_digits(s.skip(1));
        (seq![s[0]] + d, r)
    } else {
        (Seq::empty(), s)
    }
}

/// A decimal number: optional minus, integer digits, optional fraction.
pub open spec fn spec_number(s: Seq<u8>) -> Option<(bool, Seq<u8>, Seq<u8>, Seq<u8>)> {
    let neg = s.len() > 0 && s[0] == 45;
    let t = if neg {
        s.skip(1)
    } else {
        s
    };
    let (ip, r1) = spec_digits(t);
    if ip.len() == 0 {
        None
    } else if r1.len() > 0 && r1[0] == 46 {
        let (fp, r2) = spec_digits(r1.skip(1));
        if fp.len() == 0 {
            None
        } else {
            Some((neg, ip, fp, r2))
        }
    } else {
        Some((neg, ip, Seq::empty(), r1))
    }
}

/// The whole remote reply: `{"similarity": NUMBER}` and nothing else.
pub open spec fn parse_similarity_reply(s: Seq<u8>) -> Option<(bool, Seq<u8>, Seq<u8>)> {
    match tok(s, lbrace()) {
        None => None,
        Some(t1) => match tok(t1, q_similarity()) {
            None => None,
            Some(t2) => match tok(t2, colon_tok()) {
                None => None,
                Some(t3) => match spec_number(skip_ws(t3)) {
                    None => None,
                    Some((neg, ip, fp, r)) => match tok(r, rbrace()) {
                        None => None,
                        Some(rr) => if skip_ws(rr).len() == 0 {
                            Some((neg, ip, fp))
                        } else {
                            None
                        },
                    },
                },
            },
        },
    }
}

/// The value of a digit string.
pub open spec fn digits_val(ds: Seq<u8>) -> nat
    decreases ds.len(),
{
    if ds.len() == 0 {
        0
    } else {
        digits_val(ds.drop_last()) * 10 + (ds.last() - 48) as nat
    }
}

pub open spec fn pow10(k: nat) -> nat
    decreases k,
{
    if k == 0 {
        1
    } else {
        10 * pow10((k - 1) as nat)
    }
}

/// How many fraction digits the reader keeps.
pub open spec fn frac_limit() -> nat {
    9
}

/// The similarity a reply stands for, clamped into [0, 1]: negative numbers
/// clamp to 0, numbers with a nonzero integer part clamp to 1, and otherwise
/// the first few fraction digits give the exact rational.
pub open spec fn clamped_score_of(neg: bool, ip: Seq<u8>, fp: Seq<u8>) -> (nat, nat) {
    if neg {
        (0nat, 1nat)
    } else if exists|i: int| 0 <= i < ip.len() && ip[i] != 48 {
        (1nat, 1nat)
    } else {
        let f = if fp.len() <= frac_limit() {
            fp
        } else {
            fp.take(frac_limit() as int)
        };
        (digits_val(f), pow10(f.len()))
    }
}

proof fn lemma_pow10_9()
    ensures
        pow10(9) == 1000000000,
{
    reveal_with_fuel(pow10, 11);
}

proof fn lemma_pow10_small(k: nat)
    requires
        k <= 9,
    ensures
        1 <= pow10(k) <= 1000000000,
{
    reveal_with_fuel(pow10, 11);
    if k == 0 {
    } else if k == 1 {
    } else if k == 2 {
    } else if k == 3 {
    } else if k == 4 {
    } else if k == 5 {
    } else if k == 6 {
    } else if k == 7 {
    } else if k == 8 {
    } else {
        assert(k == 9);
    }
}

/// Scans the digit run starting at `i`.
fn scan_digits(s: &Vec<u8>, i: usize) -> (r: (usize, bool))
    requires
        i <= s@.len(),
    ensures
        i <= r.0 <= s@.len(),
        spec_digits(s@.skip(i as int)) == (s@.subrange(i as int, r.0 as int), s@.skip(r.0 as int)),
        r.1 == exists|m: int| i <= m < r.0 && s@[m] != 48,
        forall|m: int| i <= m < r.0 ==> is_digit(#[trigger] s@[m]),
{
    let mut j = i;
    let mut nonzero = false;
    while j < s.len()
        invariant
            i <= j <= s@.len(),
            nonzero == exists|m: int| i <= m < j && s@[m] != 48,
            forall|m: int| i <= m < j ==> is_digit(#[trigger] s@[m]),
            spec_digits(s@.skip(i as int)) == (
                s@.subrange(i as int, j as int) + spec_digits(s@.skip(j as int)).0,
                spec_digits(s@.skip(j as int)).1,
            ),
        decreases s@.len() - j,
    {
        let b = s[j];
        if b < 48 || b > 57 {
            proof {
                assert(s@.skip(j as int)[0] == s@[j as int]);
                assert(spec_digits(s@.skip(j as int)) == (Seq::<u8>::empty(), s@.skip(j as int)));
                assert(s@.subrange(i as int, j as int) + Seq::<u8>::empty()
                    =~= s@.subrange(i as int, j as int));
            }
            return (j, nonzero);
        }
        proof {
            assert(s@.skip(j as int)[0] == s@[j as int]);
            assert(s@.skip(j as int).skip(1) =~= s@.skip(j + 1));
            assert(s@.subrange(i as int, j + 1)
                =~= s@.subrange(i as int, j as int) + seq![s@[j as int]]);
            assert(s@.subrange(i as int, j as int) + (seq![s@[j as int]]
                + spec_digits(s@.skip(j + 1)).0)
                =~= s@.subrange(i as int, j + 1) + spec_digits(s@.skip(j + 1)).0);
        }
        if b != 48 {
            nonzero = true;
        }
        j += 1;
    }
    proof {
        assert(s@.skip(j as int) =~= Seq::<u8>::empty());
        assert(spec_digits(Seq::<u8>::empty()) == (Seq::<u8>::empty(), Seq::<u8>::empty()));
        assert(s@.subrange(i as int, j as int) + Seq::<u8>::empty()
            =~= s@.subrange(i as int, j as int));
    }
    (j, nonzero)
}

/// Parses a remote reply and yields the clamped similarity score.
#[verifier::rlimit(100)]
#[verifier::spinoff_prover]
pub fn parse_remote_score(s: &Vec<u8>) -> (r: Option<Score>)
    ensures
        (r is Some) == (parse_similarity_reply(s@) is Some),
        r matches Some(sc) ==> (parse_similarity_reply(s@) matches Some((neg, ip, fp))
            && sc.frac() == clamped_score_of(neg, ip, fp) && sc.wf()),
{
    let lb: Vec<u8> = vec![123u8];
    let qs: Vec<u8> = vec![
        34u8,
        115u8,
        105u8,
        109u8,
        105u8,
        108u8,
        97u8,
        114u8,
        105u8,
        116u8,
        121u8,
        34u8,
    ];
    let co: Vec<u8> = vec![58u8];
    let rb: Vec<u8> = vec![125u8];
    proof {
        assert(lb@ =~= lbrace());
        assert(qs@ =~= q_similarity());
        assert(co@ =~= colon_tok());
        assert(rb@ =~= rbrace());
        assert(s@.skip(0) =~= s@);
    }
    let j1 = match crate::codec::expect_tok(s, 0, &lb) {
        None => {
            return None;
        },
        Some(j) => j,
    };
    let j2 = match crate::codec::expect_tok(s, j1, &qs) {
        None => {
            return None;
        },
        Some(j) => j,
    };
    let j3 = match crate::codec::expect_tok(s, j2, &co) {
        None => {
            return None;
        },
        Some(j) => j,
    };
    let j4 = crate::codec::skip_ws_at(s, j3);
    let ghost num_in = s@.skip(j4 as int);
    proof {
        if j4 < s@.len() {
            assert(num_in[0] == s@[j4 as int]);
        }
    }
    let neg = j4 < s.len() && s[j4] == 45;
    let d0 = if neg {
        j4 + 1
    } else {
        j4
    };
    proof {
        if neg {
            assert(num_in.skip(1) =~= s@.skip(j4 + 1));
        }
        assert(s@.skip(d0 as int) == (if neg {
            num_in.skip(1)
        } else {
            num_in
        }));
    }
    let (d1, int_nonzero) = scan_digits(s, d0);
    if d1 == d0 {
        proof {
            assert(spec_digits(s@.skip(d0 as int)).0 =~= Seq::<u8>::empty());
        }
        return None;
    }
    let ghost ip = s@.subrange(d0 as int, d1 as int);
    let mut has_frac = false;
    let mut f0: usize = d1;
    if d1 < s.len() {
        if s[d1] == 46 {
            has_frac = true;
            f0 = d1 + 1;
        }
    }
    proof {
        assert(s@.skip(d1 as int).len() > 0 ==> s@.skip(d1 as int)[0] == s@[d1 as int]);
        if has_frac {
            assert(s@.skip(d1 as int).skip(1) =~= s@.skip(d1 + 1));
        }
    }
    if has_frac {
        let (f1, _fz) = scan_digits(s, f0);
        if f1 == f0 {
            proof {
                assert(spec_digits(s@.skip(f0 as int)).0 =~= Seq::<u8>::empty());
            }
            return None;
        }
        let ghost fp = s@.subrange(f0 as int, f1 as int);
        let sc = frac_score(s, f0, f1, neg, int_nonzero);
        let j5 = match crate::codec::expect_tok(s, f1, &rb) {
            None => {
                return None;
            },
            Some(j) => j,
        };
        let j6 = crate::codec::skip_ws_at(s, j5);
        if j6 != s.len() {
            proof {
                assert(skip_ws(s@.skip(j5 as int)).len() == s@.len() - j6);
            }
            return None;
        }
        proof {
            assert(skip_ws(s@.skip(j5 as int)).len() == 0);
            assert(spec_number(num_in) == Some((neg, ip, fp, s@.skip(f1 as int))));
            assert(forall|i: int| 0 <= i < ip.len() ==> #[trigger] ip[i] == s@[d0 + i]);
            assert((exists|i: int| 0 <= i < ip.len() && ip[i] != 48) == int_nonzero) by {
                if int_nonzero {
                    let m = choose|m: int| d0 <= m < d1 && s@[m] != 48;
                    assert(ip[m - d0] != 48);
                }
                if exists|i: int| 0 <= i < ip.len() && ip[i] != 48 {
                    let i = choose|i: int| 0 <= i < ip.len() && ip[i] != 48;
                    assert(s@[d0 + i] != 48);
                }
            }
            assert(sc.frac() == clamped_score_of(neg, ip, fp));
        }
        Some(sc)
    } else {
        let sc = if neg {
            Score::zero()
        } else if int_nonzero {
            Score::one()
        } else {
            Score::zero()
        };
        let j5 = match crate::codec::expect_tok(s, d1, &rb) {
            None => {
                return None;
            },
            Some(j) => j,
        };
        let j6 = crate::codec::skip_ws_at(s, j5);
        if j6 != s.len() {
            proof {
                assert(skip_ws(s@.skip(j5 as int)).len() == s@.len() - j6);
            }
            return None;
        }
        proof {
            assert(skip_ws(s@.skip(j5 as int)).len() == 0);
            assert(spec_number(num_in) == Some((neg, ip, Seq::<u8>::empty(), s@.skip(d1 as int))));
            assert(digits_val(Seq::<u8>::empty()) == 0);
            assert(pow10(0) == 1);
            assert(forall|i: int| 0 <= i < ip.len() ==> #[trigger] ip[i] == s@[d0 + i]);
            assert((exists|i: int| 0 <= i < ip.len() && ip[i] != 48) == int_nonzero) by {
                if int_nonzero {
                    let m = choose|m: int| d0 <= m < d1 && s@[m] != 48;
                    assert(ip[m - d0] != 48);
                }
                if exists|i: int| 0 <= i < ip.len() && ip[i] != 48 {
                    let i = choose|i: int| 0 <= i < ip.len() && ip[i] != 48;
                    assert(s@[d0 + i] != 48);
                }
            }
            assert(sc.frac() == clamped_score_of(neg, ip, Seq::<u8>::empty()));
        }
        Some(sc)
    }
}

/// The clamped score of a parsed number whose fraction digits stand in
/// `s[f0..f1]`.
fn frac_score(s: &Vec<u8>, f0: usize, f1: usize, neg: bool, int_nonzero: bool) -> (sc: Score)
    requires
        f0 <= f1 <= s@.len(),
        forall|m: int| f0 <= m < f1 ==> is_digit(#[trigger] s@[m]),
    ensures
        sc.frac() == (if neg {
            (0nat, 1nat)
        } else if int_nonzero {
            (1nat, 1nat)
        } else {
            let fp = s@.subrange(f0 as int, f1 as int);
            let f = if fp.len() <= frac_limit() {
                fp
            } else {
                fp.take(frac_limit() as int)
            };
            (digits_val(f), pow10(f.len()))
        }),
        sc.wf(),
{
    let ghost fp = s@.subrange(f0 as int, f1 as int);
    if neg {
        return Score::zero();
    }
    if int_nonzero {
        return Score::one();
    }
    let mut num: u64 = 0;
    let mut den: u64 = 1;
    let mut m = f0;
    let limit = if f1 - f0 > 9 {
        f0 + 9
    } else {
        f1
    };
    proof {
        assert(fp.take(0) =~= Seq::<u8>::empty());
        lemma_pow10_9();
    }
    while m < limit
        invariant
            f0 <= m <= limit <= f1 <= s@.len(),
            limit - f0 <= 9,
            limit as int == (if f1 - f0 > 9 {
                f0 + 9
            } else {
                f1 as int
            }),
            fp == s@.subrange(f0 as int, f1 as int),
            forall|i: int| f0 <= i < f1 ==> is_digit(#[trigger] s@[i]),
            num == digits_val(fp.take(m - f0)),
            den == pow10((m - f0) as nat),
            num < den <= 1000000000,
        decreases limit - m,
    {
        let b = s[m];
        proof {
            assert(fp.take(m - f0 + 1).drop_last() =~= fp.take(m - f0));
            assert(fp.take(m - f0 + 1).last() == s@[m as int]);
            assert(pow10((m + 1 - f0) as nat) == 10 * pow10((m - f0) as nat));
            lemma_pow10_small((m + 1 - f0) as nat);
        }
        num = num * 10 + (b - 48) as u64;
        den = den * 10;
        m += 1;
    }
    proof {
        let f = if fp.len() <= frac_limit() {
            fp
        } else {
            fp.take(frac_limit() as int)
        };
        if fp.len() <= frac_limit() {
            assert(fp.take(limit - f0) =~= fp);
        } else {
            assert(fp.take(limit - f0) =~= fp.take(frac_limit() as int));
        }
        assert(num == digits_val(f));
        assert(den == pow10(f.len()));
    }
    Score { num: num as usize, den: den as usize }
}

} // verus!
