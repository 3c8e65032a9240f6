//! The byte-level document format of this pipeline: a candidate is the JSON
//! object `{"question": STR, "answers": [STR, STR, STR, STR]}`, and the
//! persisted history is `{"responses": [CANDIDATE, ...]}`. Strings carry the
//! single-character escapes (`\" \\ \/ \b \f \n \r \t`; the `\uXXXX` form is
//! not accepted). The parser takes whitespace between tokens; the serializer
//! pretty-prints with two-space indents, and parsing what was serialized
//! yields the records back unchanged.

use vstd::prelude::*;
use crate::poll::AbsCandidate;
use crate::poll::Candidate;
use crate::poll::HistoryStore;
use crate::poll::candidate_wf;

verus! {

pub open spec fn ws_byte(b: u8) -> bool {
    b == 32 || b == 9 || b == 10 || b == 13
}

/// `s` without its leading whitespace.
pub open spec fn skip_ws(s: Seq<u8>) -> Seq<u8>
    decreases s.len(),
{
    if s.len() > 0 && ws_byte(s[0]) {
        skip_ws(s.skip(1))
    } else {
        s
    }
}

/// Consumes the exact literal `lit` from the front of `s`.
pub open spec fn parse_exact(s: Seq<u8>, lit: Seq<u8>) -> Option<Seq<u8>> {
    if lit.len() <= s.len() && s.take(lit.len() as int) == lit {
        Some(s.skip(lit.len() as int))
    } else {
        None
    }
}

/// The single-character escapes the format knows, by their code letter.
pub open spec fn escape_code(e: u8) -> bool {
    e == 34 || e == 92 || e == 47 || e == 98 || e == 102 || e == 110 || e == 114 || e == 116
}

/// The byte a single-character escape stands for.
pub open spec fn unescape_byte(e: u8) -> u8 {
    if e == 98 {
        8
    } else if e == 102 {
        12
    } else if e == 110 {
        10
    } else if e == 114 {
        13
    } else if e == 116 {
        9
    } else {
        e
    }
}

/// Parses a string body after its opening quote: bytes up to the first
/// unescaped quote, where a backslash introduces one of the single-character
/// escapes `\" \\ \/ \b \f \n \r \t`. The `\uXXXX` form is deliberately not
/// accepted: a reply that uses it fails to parse.
pub open spec fn parse_string_body(s: Seq<u8>) -> Option<(Seq<u8>, Seq<u8>)>
    decreases s.len(),
{
    if s.len() == 0 {
        None
    } else if s[0] == 34 {
        Some((Seq::empty(), s.skip(1)))
    } else if s[0] == 92 {
        if s.len() >= 2 && escape_code(s[1]) {
            match parse_string_body(s.skip(2)) {
                Some((c, r)) => Some((seq![unescape_byte(s[1])] + c, r)),
                None => None,
            }
        } else {
            None
        }
    } else {
        match parse_string_body(s.skip(1)) {
            Some((c, r)) => Some((seq![s[0]] + c, r)),
            None => None,
        }
    }
}

/// A quoted string, with leading whitespace allowed.
pub open spec fn parse_qstring(s: Seq<u8>) -> Option<(Seq<u8>, Seq<u8>)> {
    let t = skip_ws(s);
    if t.len() > 0 && t[0] == 34 {
        parse_string_body(t.skip(1))
    } else {
        None
    }
}

/// How one byte is written out: the quote, the backslash and the common
/// control characters behind a backslash, every other byte as itself.
pub open spec fn esc_byte(b: u8) -> Seq<u8> {
    if b == 34 || b == 92 {
        seq![92u8, b]
    } else if b == 8 {
        seq![92u8, 98u8]
    } else if b == 9 {
        seq![92u8, 116u8]
    } else if b == 10 {
        seq![92u8, 110u8]
    } else if b == 12 {
        seq![92u8, 102u8]
    } else if b == 13 {
        seq![92u8, 114u8]
    } else {
        seq![b]
    }
}

/// The escaped image of a string body.
pub open spec fn esc(s: Seq<u8>) -> Seq<u8>
    decreases s.len(),
{
    if s.len() == 0 {
        Seq::empty()
    } else {
        esc_byte(s[0]) + esc(s.skip(1))
    }
}

/// A serialized string: quote, escaped body, quote.
pub open spec fn ser_str(s: Seq<u8>) -> Seq<u8> {
    seq![34u8] + esc(s) + seq![34u8]
}

pub open spec fn lbrace() -> Seq<u8> {
    seq![123u8]
}

pub open spec fn rbrace() -> Seq<u8> {
    seq![125u8]
}

pub open spec fn lbrack() -> Seq<u8> {
    seq![91u8]
}

pub open spec fn rbrack() -> Seq<u8> {
    seq![93u8]
}

pub open spec fn colon_tok() -> Seq<u8> {
    seq![58u8]
}

pub open spec fn comma_tok() -> Seq<u8> {
    seq![44u8]
}

pub open spec fn q_question() -> Seq<u8> {
    seq![34u8, 113u8, 117u8, 101u8, 115u8, 116u8, 105u8, 111u8, 110u8, 34u8]
}

pub open spec fn q_answers() -> Seq<u8> {
    seq![34u8, 97u8, 110u8, 115u8, 119u8, 101u8, 114u8, 115u8, 34u8]
}

pub open spec fn q_responses() -> Seq<u8> {
    seq![34u8, 114u8, 101u8, 115u8, 112u8, 111u8, 110u8, 115u8, 101u8, 115u8, 34u8]
}

pub open spec fn sp() -> Seq<u8> {
    seq![32u8]
}

pub open spec fn nl0() -> Seq<u8> {
    seq![10u8]
}

pub open spec fn nl2() -> Seq<u8> {
    seq![10u8, 32u8, 32u8]
}

pub open spec fn nl4() -> Seq<u8> {
    seq![10u8, 32u8, 32u8, 32u8, 32u8]
}

pub open spec fn nl6() -> Seq<u8> {
    seq![10u8, 32u8, 32u8, 32u8, 32u8, 32u8, 32u8]
}

pub open spec fn nl8() -> Seq<u8> {
    seq![10u8, 32u8, 32u8, 32u8, 32u8, 32u8, 32u8, 32u8, 32u8]
}

pub open spec fn lit_question() -> Seq<u8> {
    lbrace() + nl6() + q_question() + colon_tok() + sp()
}

pub open spec fn lit_answers() -> Seq<u8> {
    comma_tok() + nl6() + q_answers() + colon_tok() + sp() + lbrack() + nl8()
}

pub open spec fn lit_sep() -> Seq<u8> {
    comma_tok() + nl8()
}

pub open spec fn lit_cand_close() -> Seq<u8> {
    nl6() + rbrack() + nl4() + rbrace()
}

pub open spec fn lit_responses() -> Seq<u8> {
    lbrace() + nl2() + q_responses() + colon_tok() + sp() + lbrack()
}

pub open spec fn lit_item_sep() -> Seq<u8> {
    comma_tok() + nl4()
}

/// A serialized candidate, indented to stand inside the record list.
pub open spec fn ser_candidate(c: AbsCandidate) -> Seq<u8> {
    lit_question() + ser_str(c.question) + lit_answers() + ser_str(c.answers[0]) + lit_sep()
        + ser_str(c.answers[1]) + lit_sep() + ser_str(c.answers[2]) + lit_sep()
        + ser_str(c.answers[3]) + lit_cand_close()
}

/// The later records of a serialized history, each behind a comma and a
/// fresh line.
pub open spec fn ser_rest(h: Seq<AbsCandidate>) -> Seq<u8>
    decreases h.len(),
{
    if h.len() == 0 {
        Seq::empty()
    } else {
        lit_item_sep() + ser_candidate(h[0]) + ser_rest(h.skip(1))
    }
}

/// The serialized history document, pretty-printed with two-space indents.
pub open spec fn ser_store(h: Seq<AbsCandidate>) -> Seq<u8> {
    lit_responses() + (if h.len() == 0 {
        Seq::<u8>::empty()
    } else {
        nl4() + ser_candidate(h[0]) + ser_rest(h.skip(1)) + nl2()
    }) + rbrack() + nl0() + rbrace()
}

/// Escaping distributes over appending one byte at the end.
proof fn lemma_esc_snoc(s: Seq<u8>, b: u8)
    ensures
        esc(s.push(b)) == esc(s) + esc_byte(b),
    decreases s.len(),
{
    if s.len() == 0 {
        assert(s.push(b).skip(1) =~= Seq::<u8>::empty());
        assert(s.push(b)[0] == b);
        assert(esc(s.push(b)) == esc_byte(b) + esc(Seq::<u8>::empty()));
        assert(esc_byte(b) + Seq::<u8>::empty() =~= esc_byte(b));
        assert(esc(s) + esc_byte(b) =~= esc_byte(b));
    } else {
        assert(s.push(b).skip(1) =~= s.skip(1).push(b));
        lemma_esc_snoc(s.skip(1), b);
        assert(esc(s.push(b)) == esc_byte(s[0]) + (esc(s.skip(1)) + esc_byte(b)));
        assert(esc_byte(s[0]) + (esc(s.skip(1)) + esc_byte(b))
            =~= (esc_byte(s[0]) + esc(s.skip(1))) + esc_byte(b));
    }
}

fn push_lit_question(out: &mut Vec<u8>)
    ensures
        final(out)@ == old(out)@ + lit_question(),
{
    let mut t: Vec<u8> = vec![
        123u8, 10u8, 32u8, 32u8, 32u8, 32u8, 32u8, 32u8, 34u8, 113u8, 117u8, 101u8, 115u8,
        116u8, 105u8, 111u8, 110u8, 34u8, 58u8, 32u8,
    ];
    proof {
        assert(t@ =~= lit_question());
    }
    out.append(&mut t);
}

fn push_lit_answers(out: &mut Vec<u8>)
    ensures
        final(out)@ == old(out)@ + lit_answers(),
{
    let mut t: Vec<u8> = vec![
        44u8, 10u8, 32u8, 32u8, 32u8, 32u8, 32u8, 32u8, 34u8, 97u8, 110u8, 115u8, 119u8, 101u8,
        114u8, 115u8, 34u8, 58u8, 32u8, 91u8, 10u8, 32u8, 32u8, 32u8, 32u8, 32u8, 32u8, 32u8,
        32u8,
    ];
    proof {
        assert(t@ =~= lit_answers());
    }
    out.append(&mut t);
}

fn push_lit_sep(out: &mut Vec<u8>)
    ensures
        final(out)@ == old(out)@ + lit_sep(),
{
    let mut t: Vec<u8> = vec![44u8, 10u8, 32u8, 32u8, 32u8, 32u8, 32u8, 32u8, 32u8, 32u8];
    proof {
        assert(t@ =~= lit_sep());
    }
    out.append(&mut t);
}

fn push_lit_cand_close(out: &mut Vec<u8>)
    ensures
        final(out)@ == old(out)@ + lit_cand_close(),
{
    let mut t: Vec<u8> = vec![
        10u8, 32u8, 32u8, 32u8, 32u8, 32u8, 32u8, 93u8, 10u8, 32u8, 32u8, 32u8, 32u8, 125u8,
    ];
    proof {
        assert(t@ =~= lit_cand_close());
    }
    out.append(&mut t);
}

fn push_lit_responses(out: &mut Vec<u8>)
    ensures
        final(out)@ == old(out)@ + lit_responses(),
{
    let mut t: Vec<u8> = vec![
        123u8, 10u8, 32u8, 32u8, 34u8, 114u8, 101u8, 115u8, 112u8, 111u8, 110u8, 115u8, 101u8,
        115u8, 34u8, 58u8, 32u8, 91u8,
    ];
    proof {
        assert(t@ =~= lit_responses());
    }
    out.append(&mut t);
}

fn push_lit_item_sep(out: &mut Vec<u8>)
    ensures
        final(out)@ == old(out)@ + lit_item_sep(),
{
    let mut t: Vec<u8> = vec![44u8, 10u8, 32u8, 32u8, 32u8, 32u8];
    proof {
        assert(t@ =~= lit_item_sep());
    }
    out.append(&mut t);
}

fn push_nl4(out: &mut Vec<u8>)
    ensures
        final(out)@ == old(out)@ + nl4(),
{
    let mut t: Vec<u8> = vec![10u8, 32u8, 32u8, 32u8, 32u8];
    proof {
        assert(t@ =~= nl4());
    }
    out.append(&mut t);
}

fn push_doc_close(out: &mut Vec<u8>)
    ensures
        final(out)@ == old(out)@ + nl2() + rbrack() + nl0() + rbrace(),
{
    let mut t: Vec<u8> = vec![10u8, 32u8, 32u8, 93u8, 10u8, 125u8];
    proof {
        assert(t@ =~= nl2() + rbrack() + nl0() + rbrace());
    }
    out.append(&mut t);
}

fn push_doc_close_empty(out: &mut Vec<u8>)
    ensures
        final(out)@ == old(out)@ + rbrack() + nl0() + rbrace(),
{
    let mut t: Vec<u8> = vec![93u8, 10u8, 125u8];
    proof {
        assert(t@ =~= rbrack() + nl0() + rbrace());
    }
    out.append(&mut t);
}

/// Appends a serialized string.
fn push_ser_str(out: &mut Vec<u8>, s: &Vec<u8>)
    ensures
        final(out)@ == old(out)@ + ser_str(s@),
{
    out.push(34);
    let ghost base = out@;
    let mut i: usize = 0;
    proof {
        assert(s@.take(0) =~= Seq::<u8>::empty());
        assert(base + esc(Seq::<u8>::empty()) =~= base);
    }
    while i < s.len()
        invariant
            i <= s@.len(),
            out@ == base + esc(s@.take(i as int)),
        decreases s@.len() - i,
    {
        let b = s[i];
        if b == 34 || b == 92 {
            out.push(92);
            out.push(b);
        } else if b == 8 {
            out.push(92);
            out.push(98);
        } else if b == 9 {
            out.push(92);
            out.push(116);
        } else if b == 10 {
            out.push(92);
            out.push(110);
        } else if b == 12 {
            out.push(92);
            out.push(102);
        } else if b == 13 {
            out.push(92);
            out.push(114);
        } else {
            out.push(b);
        }
        proof {
            lemma_esc_snoc(s@.take(i as int), s@[i as int]);
            assert(s@.take(i + 1) =~= s@.take(i as int).push(s@[i as int]));
            assert(out@ =~= base + esc(s@.take(i + 1)));
        }
        i += 1;
    }
    out.push(34);
    proof {
        assert(s@.take(s@.len() as int) =~= s@);
        assert(out@ =~= old(out)@ + ser_str(s@));
    }
}

/// Appends a serialized candidate.
fn push_ser_candidate(out: &mut Vec<u8>, c: &Candidate)
    requires
        c.wf(),
    ensures
        final(out)@ == old(out)@ + ser_candidate(c@),
{
    push_lit_question(out);
    push_ser_str(out, &c.question);
    push_lit_answers(out);
    push_ser_str(out, &c.answers[0]);
    push_lit_sep(out);
    push_ser_str(out, &c.answers[1]);
    push_lit_sep(out);
    push_ser_str(out, &c.answers[2]);
    push_lit_sep(out);
    push_ser_str(out, &c.answers[3]);
    push_lit_cand_close(out);
    proof {
        assert(c@.answers[0] == c.answers@[0]@);
        assert(c@.answers[1] == c.answers@[1]@);
        assert(c@.answers[2] == c.answers@[2]@);
        assert(c@.answers[3] == c.answers@[3]@);
        assert(out@ =~= old(out)@ + ser_candidate(c@));
    }
}

/// Serializes the whole history document.
pub fn serialize_store(h: &HistoryStore) -> (r: Vec<u8>)
    requires
        h.wf(),
    ensures
        r@ == ser_store(h@),
{
    let mut out: Vec<u8> = Vec::new();
    push_lit_responses(&mut out);
    let mut i: usize = 0;
    let ghost hd = h@;
    if h.records.len() > 0 {
        proof {
            assert(hd[0] == h.records@[0]@);
        }
        push_nl4(&mut out);
        push_ser_candidate(&mut out, &h.records[0]);
        i = 1;
        proof {
            assert(out@ =~= lit_responses() + nl4() + ser_candidate(hd[0])
                + ser_rest(hd.skip(1)).take(0));
        }
        while i < h.records.len()
            invariant
                1 <= i <= h.records@.len(),
                hd == h@,
                hd.len() == h.records@.len(),
                out@ == lit_responses() + nl4() + ser_candidate(hd[0])
                    + ser_rest_upto(hd, i as int),
                h.wf(),
            decreases h.records@.len() - i,
        {
            proof {
                assert(hd[i as int] == h.records@[i as int]@);
            }
            push_lit_item_sep(&mut out);
            push_ser_candidate(&mut out, &h.records[i]);
            proof {
                lemma_ser_rest_upto_snoc(hd, i as int);
                assert(out@ =~= lit_responses() + nl4() + ser_candidate(hd[0])
                    + ser_rest_upto(hd, i + 1));
            }
            i += 1;
        }
        proof {
            lemma_ser_rest_upto_full(hd);
        }
        push_doc_close(&mut out);
    } else {
        push_doc_close_empty(&mut out);
    }
    proof {
        assert(out@ =~= ser_store(h@));
    }
    out
}

/// The serialized later records, cut off after the first `i`.
pub open spec fn ser_rest_upto(h: Seq<AbsCandidate>, i: int) -> Seq<u8>
    decreases i,
{
    if i <= 1 {
        Seq::empty()
    } else {
        ser_rest_upto(h, i - 1) + lit_item_sep() + ser_candidate(h[i - 1])
    }
}

proof fn lemma_ser_rest_upto_snoc(h: Seq<AbsCandidate>, i: int)
    requires
        1 <= i,
    ensures
        ser_rest_upto(h, i + 1) == ser_rest_upto(h, i) + lit_item_sep() + ser_candidate(h[i]),
{
}

/// The cut-off form, grown to the full length, is `ser_rest` of the tail.
proof fn lemma_ser_rest_upto(h: Seq<AbsCandidate>, k: int)
    requires
        1 <= k <= h.len(),
    ensures
        ser_rest_upto(h, k) + ser_rest(h.skip(k)) =~= ser_rest(h.skip(1)),
    decreases k,
{
    if k == 1 {
    } else {
        lemma_ser_rest_upto(h, k - 1);
        assert(h.skip(k - 1)[0] == h[k - 1]);
        assert(h.skip(k - 1).skip(1) =~= h.skip(k));
        assert(ser_rest(h.skip(k - 1))
            == lit_item_sep() + ser_candidate(h[k - 1]) + ser_rest(h.skip(k)));
        assert(ser_rest_upto(h, k)
            == ser_rest_upto(h, k - 1) + lit_item_sep() + ser_candidate(h[k - 1]));
        assert(ser_rest_upto(h, k) + ser_rest(h.skip(k))
            =~= ser_rest_upto(h, k - 1) + ser_rest(h.skip(k - 1)));
    }
}

proof fn lemma_ser_rest_upto_full(h: Seq<AbsCandidate>)
    requires
        h.len() >= 1,
    ensures
        ser_rest_upto(h, h.len() as int) =~= ser_rest(h.skip(1)),
{
    lemma_ser_rest_upto(h, h.len() as int);
    assert(h.skip(h.len() as int) =~= Seq::<AbsCandidate>::empty());
    assert(ser_rest(Seq::<AbsCandidate>::empty()) =~= Seq::<u8>::empty());
    assert(ser_rest_upto(h, h.len() as int) + Seq::<u8>::empty()
        =~= ser_rest_upto(h, h.len() as int));
}

/// A token: the literal after any leading whitespace.
pub open spec fn tok(s: Seq<u8>, lit: Seq<u8>) -> Option<Seq<u8>> {
    parse_exact(skip_ws(s), lit)
}

/// A candidate object, returning the remainder after its closing brace.
pub open spec fn parse_candidate_body(s: Seq<u8>) -> Option<(AbsCandidate, Seq<u8>)> {
    match tok(s, lbrace()) {
        None => None,
        Some(t1) => match tok(t1, q_question()) {
            None => None,
            Some(t2) => match tok(t2, colon_tok()) {
                None => None,
                Some(t3) => match parse_qstring(t3) {
                    None => None,
                    Some((q, t4)) => match tok(t4, comma_tok()) {
                        None => None,
                        Some(t5) => match tok(t5, q_answers()) {
                            None => None,
                            Some(t6) => match tok(t6, colon_tok()) {
                                None => None,
                                Some(t7) => match tok(t7, lbrack()) {
                                    None => None,
                                    Some(t8) => parse_candidate_answers(q, t8),
                                },
                            },
                        },
                    },
                },
            },
        },
    }
}

/// The four answer strings and the two closing brackets.
pub open spec fn parse_candidate_answers(q: Seq<u8>, s: Seq<u8>) -> Option<
    (AbsCandidate, Seq<u8>),
> {
    match parse_qstring(s) {
        None => None,
        Some((a0, t1)) => match tok(t1, comma_tok()) {
            None => None,
            Some(t2) => match parse_qstring(t2) {
                None => None,
                Some((a1, t3)) => match tok(t3, comma_tok()) {
                    None => None,
                    Some(t4) => match parse_qstring(t4) {
                        None => None,
                        Some((a2, t5)) => match tok(t5, comma_tok()) {
                            None => None,
                            Some(t6) => match parse_qstring(t6) {
                                None => None,
                                Some((a3, t7)) => match tok(t7, rbrack()) {
                                    None => None,
                                    Some(t8) => match tok(t8, rbrace()) {
                                        None => None,
                                        Some(r) => Some(
                                            (
                                                AbsCandidate {
                                                    question: q,
                                                    answers: seq![a0, a1, a2, a3],
                                                },
                                                r,
                                            ),
                                        ),
                                    },
                                },
                            },
                        },
                    },
                },
            },
        },
    }
}

/// A whole generator reply: one candidate object and nothing else.
pub open spec fn parse_candidate_full(s: Seq<u8>) -> Option<AbsCandidate> {
    match parse_candidate_body(s) {
        None => None,
        Some((c, r)) => if skip_ws(r).len() == 0 {
            Some(c)
        } else {
            None
        },
    }
}

proof fn lemma_skip_ws_len(s: Seq<u8>)
    ensures
        skip_ws(s).len() <= s.len(),
    decreases s.len(),
{
    if s.len() > 0 && ws_byte(s[0]) {
        lemma_skip_ws_len(s.skip(1));
    }
}

proof fn lemma_tok_len(s: Seq<u8>, lit: Seq<u8>)
    ensures
        tok(s, lit) matches Some(r) ==> r.len() + lit.len() <= s.len(),
{
    lemma_skip_ws_len(s);
}

proof fn lemma_string_body_len(s: Seq<u8>)
    ensures
        parse_string_body(s) matches Some((c, r)) ==> r.len() < s.len(),
    decreases s.len(),
{
    if s.len() == 0 {
    } else if s[0] == 34 {
    } else if s[0] == 92 {
        if s.len() >= 2 && escape_code(s[1]) {
            lemma_string_body_len(s.skip(2));
        }
    } else {
        lemma_string_body_len(s.skip(1));
    }
}

proof fn lemma_qstring_len(s: Seq<u8>)
    ensures
        parse_qstring(s) matches Some((q, r)) ==> r.len() < s.len(),
{
    lemma_skip_ws_len(s);
    let t = skip_ws(s);
    if t.len() > 0 && t[0] == 34 {
        lemma_string_body_len(t.skip(1));
    }
}

/// A parsed candidate consumes at least one byte.
proof fn lemma_candidate_body_len(s: Seq<u8>)
    ensures
        parse_candidate_body(s) matches Some((c, r)) ==> r.len() < s.len(),
{
    lemma_tok_len(s, lbrace());
    if let Some(t1) = tok(s, lbrace()) {
        lemma_tok_len(t1, q_question());
        if let Some(t2) = tok(t1, q_question()) {
            lemma_tok_len(t2, colon_tok());
            if let Some(t3) = tok(t2, colon_tok()) {
                lemma_qstring_len(t3);
                if let Some((q, t4)) = parse_qstring(t3) {
                    lemma_tok_len(t4, comma_tok());
                    if let Some(t5) = tok(t4, comma_tok()) {
                        lemma_tok_len(t5, q_answers());
                        if let Some(t6) = tok(t5, q_answers()) {
                            lemma_tok_len(t6, colon_tok());
                            if let Some(t7) = tok(t6, colon_tok()) {
                                lemma_tok_len(t7, lbrack());
                                if let Some(t8) = tok(t7, lbrack()) {
                                    lemma_candidate_answers_len(q, t8);
                                }
                            }
                        }
                    }
                }
            }
        }
    }
}

proof fn lemma_candidate_answers_len(q: Seq<u8>, s: Seq<u8>)
    ensures
        parse_candidate_answers(q, s) matches Some((c, r)) ==> r.len() < s.len(),
{
    lemma_qstring_len(s);
    if let Some((a0, t1)) = parse_qstring(s) {
        lemma_tok_len(t1, comma_tok());
        if let Some(t2) = tok(t1, comma_tok()) {
            lemma_qstring_len(t2);
            if let Some((a1, t3)) = parse_qstring(t2) {
                lemma_tok_len(t3, comma_tok());
                if let Some(t4) = tok(t3, comma_tok()) {
                    lemma_qstring_len(t4);
                    if let Some((a2, t5)) = parse_qstring(t4) {
                        lemma_tok_len(t5, comma_tok());
                        if let Some(t6) = tok(t5, comma_tok()) {
                            lemma_qstring_len(t6);
                            if let Some((a3, t7)) = parse_qstring(t6) {
                                lemma_tok_len(t7, rbrack());
                                if let Some(t8) = tok(t7, rbrack()) {
                                    lemma_tok_len(t8, rbrace());
                                }
                            }
                        }
                    }
                }
            }
        }
    }
}

/// The records after the first: either the closing bracket, or a comma and
/// one more candidate, repeatedly.
pub open spec fn parse_items_rest(s: Seq<u8>) -> Option<(Seq<AbsCandidate>, Seq<u8>)>
    decreases s.len(),
    via parse_items_rest_dec
{
    match tok(s, rbrack()) {
        Some(r) => Some((Seq::empty(), r)),
        None => match tok(s, comma_tok()) {
            None => None,
            Some(t) => match parse_candidate_body(t) {
                None => None,
                Some((c, r)) => match parse_items_rest(r) {
                    None => None,
                    Some((cs, rr)) => Some((seq![c] + cs, rr)),
                },
            },
        },
    }
}

#[via_fn]
proof fn parse_items_rest_dec(s: Seq<u8>) {
    lemma_tok_len(s, comma_tok());
    if let Some(t) = tok(s, comma_tok()) {
        lemma_candidate_body_len(t);
    }
}

/// The whole history document body.
pub open spec fn parse_store_body(s: Seq<u8>) -> Option<(Seq<AbsCandidate>, Seq<u8>)> {
    match tok(s, lbrace()) {
        None => None,
        Some(t1) => match tok(t1, q_responses()) {
            None => None,
            Some(t2) => match tok(t2, colon_tok()) {
                None => None,
                Some(t3) => match tok(t3, lbrack()) {
                    None => None,
                    Some(t4) => match tok(t4, rbrack()) {
                        Some(t5) => match tok(t5, rbrace()) {
                            None => None,
                            Some(r) => Some((Seq::empty(), r)),
                        },
                        None => match parse_candidate_body(t4) {
                            None => None,
                            Some((c0, r0)) => match parse_items_rest(r0) {
                                None => None,
                                Some((cs, r1)) => match tok(r1, rbrace()) {
                                    None => None,
                                    Some(r2) => Some((seq![c0] + cs, r2)),
                                },
                            },
                        },
                    },
                },
            },
        },
    }
}

/// A whole history document and nothing else.
pub open spec fn parse_store_full(s: Seq<u8>) -> Option<Seq<AbsCandidate>> {
    match parse_store_body(s) {
        None => None,
        Some((h, r)) => if skip_ws(r).len() == 0 {
            Some(h)
        } else {
            None
        },
    }
}

/// Moves past leading whitespace.
pub(crate) fn skip_ws_at(s: &Vec<u8>, i: usize) -> (j: usize)
    requires
        i <= s@.len(),
    ensures
        i <= j <= s@.len(),
        s@.skip(j as int) == skip_ws(s@.skip(i as int)),
{
    let mut j = i;
    while j < s.len()
        invariant
            i <= j <= s@.len(),
            skip_ws(s@.skip(i as int)) == skip_ws(s@.skip(j as int)),
        decreases s@.len() - j,
    {
        let b = s[j];
        if b == 32 || b == 9 || b == 10 || b == 13 {
            proof {
                assert(s@.skip(j as int)[0] == s@[j as int]);
                assert(s@.skip(j as int).skip(1) =~= s@.skip(j + 1));
            }
            j += 1;
        } else {
            proof {
                assert(skip_ws(s@.skip(j as int)) == s@.skip(j as int));
            }
            return j;
        }
    }
    proof {
        assert(s@.skip(j as int) =~= Seq::<u8>::empty());
    }
    j
}

/// Consumes one token.
pub(crate) fn expect_tok(s: &Vec<u8>, i: usize, lit: &Vec<u8>) -> (r: Option<usize>)
    requires
        i <= s@.len(),
        lit@.len() >= 1,
    ensures
        match r {
            Some(j) => i < j <= s@.len() && tok(s@.skip(i as int), lit@)
                == Some(s@.skip(j as int)),
            None => tok(s@.skip(i as int), lit@) is None,
        },
{
    let j = skip_ws_at(s, i);
    let ghost t = skip_ws(s@.skip(i as int));
    if lit.len() > s.len() - j {
        proof {
            assert(t.len() == s@.len() - j);
        }
        return None;
    }
    let n = s.len();
    let mut k: usize = 0;
    while k < lit.len()
        invariant
            k <= lit@.len(),
            i <= j,
            n == s@.len(),
            j + lit@.len() <= n,
            t == skip_ws(s@.skip(i as int)),
            t == s@.skip(j as int),
            forall|m: int| 0 <= m < k ==> s@[j + m] == lit@[m],
        decreases lit@.len() - k,
    {
        if s[j + k] != lit[k] {
            proof {
                if lit@.len() <= t.len() && t.take(lit@.len() as int) == lit@ {
                    assert(t.take(lit@.len() as int)[k as int] == s@[j + k]);
                    assert(false);
                }
            }
            return None;
        }
        k += 1;
    }
    proof {
        assert(t.take(lit@.len() as int) =~= lit@);
        assert(t.skip(lit@.len() as int) =~= s@.skip(j + lit@.len()));
    }
    Some(j + lit.len())
}

/// Parses a quoted string token.
fn parse_qstring_at(s: &Vec<u8>, i: usize) -> (r: Option<(Vec<u8>, usize)>)
    requires
        i <= s@.len(),
    ensures
        match r {
            Some((q, j)) => i <= j <= s@.len() && parse_qstring(s@.skip(i as int))
                == Some((q@, s@.skip(j as int))),
            None => parse_qstring(s@.skip(i as int)) is None,
        },
{
    let j0 = skip_ws_at(s, i);
    let ghost t = skip_ws(s@.skip(i as int));
    if j0 == s.len() {
        proof {
            assert(t.len() == 0);
        }
        return None;
    }
    if s[j0] != 34 {
        proof {
            assert(t[0] == s@[j0 as int]);
        }
        return None;
    }
    let mut acc: Vec<u8> = Vec::new();
    let mut p: usize = j0 + 1;
    proof {
        assert(t[0] == s@[j0 as int]);
        assert(t.skip(1) =~= s@.skip(j0 + 1));
        match parse_string_body(s@.skip(p as int)) {
            Some((c, r)) => {
                assert(acc@ + c =~= c);
            },
            None => {},
        }
    }
    while p < s.len()
        invariant
            i <= j0,
            j0 + 1 <= p <= s@.len(),
            t == skip_ws(s@.skip(i as int)),
            t.len() > 0 && t[0] == 34,
            t.skip(1) == s@.skip(j0 + 1),
            match parse_string_body(s@.skip(p as int)) {
                Some((c, r)) => parse_string_body(t.skip(1)) == Some((acc@ + c, r)),
                None => parse_string_body(t.skip(1)) is None,
            },
        decreases s@.len() - p,
    {
        let b = s[p];
        let ghost cur = s@.skip(p as int);
        proof {
            assert(cur[0] == s@[p as int]);
            assert(cur.skip(1) =~= s@.skip(p + 1));
        }
        if b == 34 {
            proof {
                assert(parse_string_body(cur) == Some((Seq::<u8>::empty(), s@.skip(p + 1))));
                assert(acc@ + Seq::<u8>::empty() =~= acc@);
            }
            return Some((acc, p + 1));
        } else if b == 92 {
            if p + 1 == s.len() {
                proof {
                    assert(cur.len() < 2);
                }
                return None;
            }
            let e = s[p + 1];
            if !(e == 34 || e == 92 || e == 47 || e == 98 || e == 102 || e == 110 || e == 114
                || e == 116) {
                proof {
                    assert(cur[1] == s@[p + 1]);
                }
                return None;
            }
            let d: u8 = if e == 98 {
                8
            } else if e == 102 {
                12
            } else if e == 110 {
                10
            } else if e == 114 {
                13
            } else if e == 116 {
                9
            } else {
                e
            };
            proof {
                assert(cur[1] == s@[p + 1]);
                assert(cur.skip(2) =~= s@.skip(p + 2));
                assert(d == unescape_byte(s@[p + 1]));
            }
            let ghost pre = acc@;
            acc.push(d);
            proof {
                match parse_string_body(s@.skip(p + 2)) {
                    Some((c, r)) => {
                        assert(acc@ + c =~= pre + (seq![d] + c));
                    },
                    None => {},
                }
            }
            p += 2;
        } else {
            let ghost pre = acc@;
            acc.push(b);
            proof {
                match parse_string_body(s@.skip(p + 1)) {
                    Some((c, r)) => {
                        assert(acc@ + c =~= pre + (seq![b] + c));
                    },
                    None => {},
                }
            }
            p += 1;
        }
    }
    proof {
        assert(s@.skip(p as int) =~= Seq::<u8>::empty());
    }
    None
}

/// Parses one candidate object starting at `i`.
fn parse_candidate_at(s: &Vec<u8>, i: usize) -> (r: Option<(Candidate, usize)>)
    requires
        i <= s@.len(),
    ensures
        match r {
            Some((c, j)) => i <= j <= s@.len() && parse_candidate_body(s@.skip(i as int))
                == Some((c@, s@.skip(j as int))) && c.wf(),
            None => parse_candidate_body(s@.skip(i as int)) is None,
        },
{
    let lb: Vec<u8> = vec![123u8];
    let qq: Vec<u8> = vec![34u8, 113u8, 117u8, 101u8, 115u8, 116u8, 105u8, 111u8, 110u8, 34u8];
    let qa: Vec<u8> = vec![34u8, 97u8, 110u8, 115u8, 119u8, 101u8, 114u8, 115u8, 34u8];
    let co: Vec<u8> = vec![58u8];
    let cm: Vec<u8> = vec![44u8];
    let lk: Vec<u8> = vec![91u8];
    let rk: Vec<u8> = vec![93u8];
    let rb: Vec<u8> = vec![125u8];
    proof {
        assert(lb@ =~= lbrace());
        assert(qq@ =~= q_question());
        assert(qa@ =~= q_answers());
        assert(co@ =~= colon_tok());
        assert(cm@ =~= comma_tok());
        assert(lk@ =~= lbrack());
        assert(rk@ =~= rbrack());
        assert(rb@ =~= rbrace());
    }
    let j1 = match expect_tok(s, i, &lb) {
        None => {
            return None;
        },
        Some(j) => j,
    };
    let j2 = match expect_tok(s, j1, &qq) {
        None => {
            return None;
        },
        Some(j) => j,
    };
    let j3 = match expect_tok(s, j2, &co) {
        None => {
            return None;
        },
        Some(j) => j,
    };
    let (q, j4) = match parse_qstring_at(s, j3) {
        None => {
            return None;
        },
        Some(x) => x,
    };
    let j5 = match expect_tok(s, j4, &cm) {
        None => {
            return None;
        },
        Some(j) => j,
    };
    let j6 = match expect_tok(s, j5, &qa) {
        None => {
            return None;
        },
        Some(j) => j,
    };
    let j7 = match expect_tok(s, j6, &co) {
        None => {
            return None;
        },
        Some(j) => j,
    };
    let j8 = match expect_tok(s, j7, &lk) {
        None => {
            return None;
        },
        Some(j) => j,
    };
    let (a0, p1) = match parse_qstring_at(s, j8) {
        None => {
            return None;
        },
        Some(x) => x,
    };
    let p2 = match expect_tok(s, p1, &cm) {
        None => {
            return None;
        },
        Some(j) => j,
    };
    let (a1, p3) = match parse_qstring_at(s, p2) {
        None => {
            return None;
        },
        Some(x) => x,
    };
    let p4 = match expect_tok(s, p3, &cm) {
        None => {
            return None;
        },
        Some(j) => j,
    };
    let (a2, p5) = match parse_qstring_at(s, p4) {
        None => {
            return None;
        },
        Some(x) => x,
    };
    let p6 = match expect_tok(s, p5, &cm) {
        None => {
            return None;
        },
        Some(j) => j,
    };
    let (a3, p7) = match parse_qstring_at(s, p6) {
        None => {
            return None;
        },
        Some(x) => x,
    };
    let p8 = match expect_tok(s, p7, &rk) {
        None => {
            return None;
        },
        Some(j) => j,
    };
    let p9 = match expect_tok(s, p8, &rb) {
        None => {
            return None;
        },
        Some(j) => j,
    };
    let mut answers: Vec<Vec<u8>> = Vec::new();
    answers.push(a0);
    answers.push(a1);
    answers.push(a2);
    answers.push(a3);
    let c = Candidate { question: q, answers };
    proof {
        assert(c@.answers =~= c.answers@.map_values(|a: Vec<u8>| a@));
        assert(c@.answers.len() == 4);
        let spec_r = parse_candidate_body(s@.skip(i as int));
        assert(spec_r matches Some((a, rest)) && rest == s@.skip(p9 as int));
        assert(c@.answers =~= spec_r->Some_0.0.answers);
        assert(c@ == spec_r->Some_0.0);
    }
    Some((c, p9))
}

/// Parses a whole generator reply: one candidate object and nothing else.
pub fn parse_candidate(s: &Vec<u8>) -> (r: Option<Candidate>)
    ensures
        (r is Some) == (parse_candidate_full(s@) is Some),
        r matches Some(c) ==> Some(c@) == parse_candidate_full(s@) && c.wf(),
{
    proof {
        assert(s@.skip(0) =~= s@);
    }
    match parse_candidate_at(s, 0) {
        None => None,
        Some((c, j)) => {
            let j2 = skip_ws_at(s, j);
            if j2 == s.len() {
                Some(c)
            } else {
                proof {
                    assert(skip_ws(s@.skip(j as int)).len() == s@.len() - j2);
                }
                None
            }
        },
    }
}

/// Parses a whole history document and nothing else.
#[verifier::rlimit(100)]
#[verifier::spinoff_prover]
pub fn parse_store(s: &Vec<u8>) -> (r: Option<HistoryStore>)
    ensures
        (r is Some) == (parse_store_full(s@) is Some),
        r matches Some(h) ==> Some(h@) == parse_store_full(s@) && h.wf(),
{
    let lb: Vec<u8> = vec![123u8];
    let qr: Vec<u8> = vec![
        34u8,
        114u8,
        101u8,
        115u8,
        112u8,
        111u8,
        110u8,
        115u8,
        101u8,
        115u8,
        34u8,
    ];
    let co: Vec<u8> = vec![58u8];
    let cm: Vec<u8> = vec![44u8];
    let lk: Vec<u8> = vec![91u8];
    let rk: Vec<u8> = vec![93u8];
    let rb: Vec<u8> = vec![125u8];
    proof {
        assert(lb@ =~= lbrace());
        assert(qr@ =~= q_responses());
        assert(co@ =~= colon_tok());
        assert(cm@ =~= comma_tok());
        assert(lk@ =~= lbrack());
        assert(rk@ =~= rbrack());
        assert(rb@ =~= rbrace());
        assert(s@.skip(0) =~= s@);
    }
    let j1 = match expect_tok(s, 0, &lb) {
        None => {
            return None;
        },
        Some(j) => j,
    };
    let j2 = match expect_tok(s, j1, &qr) {
        None => {
            return None;
        },
        Some(j) => j,
    };
    let j3 = match expect_tok(s, j2, &co) {
        None => {
            return None;
        },
        Some(j) => j,
    };
    let j4 = match expect_tok(s, j3, &lk) {
        None => {
            return None;
        },
        Some(j) => j,
    };
    if let Some(j5) = expect_tok(s, j4, &rk) {
        match expect_tok(s, j5, &rb) {
            None => {
                return None;
            },
            Some(j6) => {
                let j7 = skip_ws_at(s, j6);
                if j7 == s.len() {
                    let h = HistoryStore { records: Vec::new() };
                    proof {
                        assert(h@ =~= Seq::<AbsCandidate>::empty());
                        assert(skip_ws(s@.skip(j6 as int)).len() == 0);
                    }
                    return Some(h);
                } else {
                    proof {
                        assert(skip_ws(s@.skip(j6 as int)).len() == s@.len() - j7);
                    }
                    return None;
                }
            },
        }
    }
    let (c0, q0) = match parse_candidate_at(s, j4) {
        None => {
            return None;
        },
        Some(x) => x,
    };
    let mut recs: Vec<Candidate> = Vec::new();
    recs.push(c0);
    let mut p = q0;
    let ghost first = c0@;
    proof {
        assert(recs@.map_values(|c: Candidate| c@) =~= seq![first]);
    }
    loop
        invariant
            p <= s@.len(),
            recs@.len() >= 1,
            forall|m: int| 0 <= m < recs@.len() ==> (#[trigger] recs@[m]).wf(),
            parse_store_body(s@) == (match parse_items_rest(s@.skip(p as int)) {
                Some((cs, rr)) => match tok(rr, rbrace()) {
                    Some(r2) => Some(
                        (recs@.map_values(|c: Candidate| c@) + cs, r2),
                    ),
                    None => None,
                },
                None => None,
            }),
        decreases s@.len() - p,
    {
        let rk2: Vec<u8> = vec![93u8];
        let rb2: Vec<u8> = vec![125u8];
        let cm2: Vec<u8> = vec![44u8];
        proof {
            assert(rk2@ =~= rbrack());
            assert(rb2@ =~= rbrace());
            assert(cm2@ =~= comma_tok());
        }
        if let Some(p1) = expect_tok(s, p, &rk2) {
            proof {
                assert(parse_items_rest(s@.skip(p as int))
                    == Some((Seq::<AbsCandidate>::empty(), s@.skip(p1 as int))));
            }
            match expect_tok(s, p1, &rb2) {
                None => {
                    return None;
                },
                Some(p2) => {
                    let p3 = skip_ws_at(s, p2);
                    if p3 == s.len() {
                        let h = HistoryStore { records: recs };
                        proof {
                            assert(skip_ws(s@.skip(p2 as int)).len() == 0);
                            assert(h@ + Seq::<AbsCandidate>::empty() =~= h@);
                            assert(parse_store_full(s@) == Some(h@));
                        }
                        return Some(h);
                    } else {
                        proof {
                            assert(skip_ws(s@.skip(p2 as int)).len() == s@.len() - p3);
                        }
                        return None;
                    }
                },
            }
        }
        let pc = match expect_tok(s, p, &cm2) {
            None => {
                return None;
            },
            Some(j) => j,
        };
        let (c, pn) = match parse_candidate_at(s, pc) {
            None => {
                return None;
            },
            Some(x) => x,
        };
        let ghost pre = recs@;
        recs.push(c);
        proof {
            match parse_items_rest(s@.skip(pn as int)) {
                Some((cs, rr)) => {
                    assert(recs@.map_values(|cd: Candidate| cd@) + cs
                        =~= pre.map_values(|cd: Candidate| cd@) + (seq![c@] + cs));
                },
                None => {},
            }
        }
        p = pn;
    }
}

/// A token standing at the front of its input is consumed exactly.
proof fn lemma_tok_prefix(lit: Seq<u8>, rest: Seq<u8>)
    requires
        lit.len() > 0,
        !ws_byte(lit[0]),
    ensures
        tok(lit + rest, lit) == Some(rest),
{
    let s = lit + rest;
    assert(s[0] == lit[0]);
    assert(skip_ws(s) == s);
    assert(s.take(lit.len() as int) =~= lit);
    assert(s.skip(lit.len() as int) =~= rest);
}

/// Parsing an escaped string body recovers the original bytes.
proof fn lemma_string_body_roundtrip(sb: Seq<u8>, rest: Seq<u8>)
    ensures
        parse_string_body(esc(sb) + (seq![34u8] + rest)) == Some((sb, rest)),
    decreases sb.len(),
{
    let x = esc(sb) + (seq![34u8] + rest);
    if sb.len() == 0 {
        assert(esc(sb) =~= Seq::<u8>::empty());
        assert(x[0] == 34);
        assert(x.skip(1) =~= rest);
        assert(sb =~= Seq::<u8>::empty());
    } else {
        let b = sb[0];
        let tail = sb.skip(1);
        assert(esc(sb) == esc_byte(b) + esc(tail));
        lemma_string_body_roundtrip(tail, rest);
        if b == 34 || b == 92 || b == 8 || b == 9 || b == 10 || b == 12 || b == 13 {
            let code = esc_byte(b)[1];
            assert(x[0] == 92);
            assert(x[1] == code);
            assert(escape_code(code));
            assert(unescape_byte(code) == b);
            assert(x.skip(2) =~= esc(tail) + (seq![34u8] + rest));
            assert(parse_string_body(x) == Some((seq![b] + tail, rest)));
            assert(seq![b] + tail =~= sb);
        } else {
            assert(x[0] == b);
            assert(x.skip(1) =~= esc(tail) + (seq![34u8] + rest));
            assert(parse_string_body(x) == Some((seq![b] + tail, rest)));
            assert(seq![b] + tail =~= sb);
        }
    }
}

/// The whitespace chunks the serializer writes hold only whitespace.
proof fn lemma_ws_chunks()
    ensures
        forall|i: int| 0 <= i < sp().len() ==> ws_byte(#[trigger] sp()[i]),
        forall|i: int| 0 <= i < nl0().len() ==> ws_byte(#[trigger] nl0()[i]),
        forall|i: int| 0 <= i < nl2().len() ==> ws_byte(#[trigger] nl2()[i]),
        forall|i: int| 0 <= i < nl4().len() ==> ws_byte(#[trigger] nl4()[i]),
        forall|i: int| 0 <= i < nl6().len() ==> ws_byte(#[trigger] nl6()[i]),
        forall|i: int| 0 <= i < nl8().len() ==> ws_byte(#[trigger] nl8()[i]),
{
}

/// Leading whitespace is skipped before anything else is read.
proof fn lemma_all_ws_skip(w: Seq<u8>, rest: Seq<u8>)
    requires
        forall|i: int| 0 <= i < w.len() ==> ws_byte(#[trigger] w[i]),
    ensures
        skip_ws(w + rest) == skip_ws(rest),
    decreases w.len(),
{
    if w.len() == 0 {
        assert(w + rest =~= rest);
    } else {
        assert((w + rest)[0] == w[0]);
        assert((w + rest).skip(1) =~= w.skip(1) + rest);
        assert(forall|i: int| 0 <= i < w.skip(1).len() ==> ws_byte(#[trigger] w.skip(1)[i]));
        lemma_all_ws_skip(w.skip(1), rest);
    }
}

/// A token behind serializer whitespace is consumed exactly.
proof fn lemma_tok_ws(w: Seq<u8>, lit: Seq<u8>, rest: Seq<u8>)
    requires
        forall|i: int| 0 <= i < w.len() ==> ws_byte(#[trigger] w[i]),
        lit.len() > 0,
        !ws_byte(lit[0]),
    ensures
        tok(w + (lit + rest), lit) == Some(rest),
{
    lemma_all_ws_skip(w, lit + rest);
    let s = lit + rest;
    assert(s[0] == lit[0]);
    assert(skip_ws(s) == s);
    assert(s.take(lit.len() as int) =~= lit);
    assert(s.skip(lit.len() as int) =~= rest);
}

/// Parsing a serialized string token behind whitespace recovers the bytes.
proof fn lemma_qstring_ws(w: Seq<u8>, sb: Seq<u8>, rest: Seq<u8>)
    requires
        forall|i: int| 0 <= i < w.len() ==> ws_byte(#[trigger] w[i]),
    ensures
        parse_qstring(w + (ser_str(sb) + rest)) == Some((sb, rest)),
{
    lemma_all_ws_skip(w, ser_str(sb) + rest);
    let s = ser_str(sb) + rest;
    assert(s[0] == 34);
    assert(skip_ws(s) == s);
    assert(s.skip(1) =~= esc(sb) + (seq![34u8] + rest));
    lemma_string_body_roundtrip(sb, rest);
}

/// Parsing a serialized candidate, behind any serializer whitespace,
/// recovers the candidate.
#[verifier::rlimit(100)]
#[verifier::spinoff_prover]
proof fn lemma_candidate_roundtrip(w: Seq<u8>, c: AbsCandidate, rest: Seq<u8>)
    requires
        forall|i: int| 0 <= i < w.len() ==> ws_byte(#[trigger] w[i]),
        candidate_wf(c),
    ensures
        parse_candidate_body(w + (ser_candidate(c) + rest)) == Some((c, rest)),
{
    lemma_ws_chunks();
    let s16 = nl4() + (rbrace() + rest);
    let s15 = nl6() + (rbrack() + s16);
    let s14 = nl8() + (ser_str(c.answers[3]) + s15);
    let s13 = comma_tok() + s14;
    let s12 = nl8() + (ser_str(c.answers[2]) + s13);
    let s11 = comma_tok() + s12;
    let s10 = nl8() + (ser_str(c.answers[1]) + s11);
    let s9 = comma_tok() + s10;
    let s8 = nl8() + (ser_str(c.answers[0]) + s9);
    let s7 = sp() + (lbrack() + s8);
    let s6 = colon_tok() + s7;
    let s5 = nl6() + (q_answers() + s6);
    let s4 = comma_tok() + s5;
    let s3 = sp() + (ser_str(c.question) + s4);
    let s2 = colon_tok() + s3;
    let s1 = nl6() + (q_question() + s2);
    let s0 = w + (lbrace() + s1);
    assert(w + (ser_candidate(c) + rest) =~= s0);
    lemma_tok_ws(w, lbrace(), s1);
    lemma_tok_ws(nl6(), q_question(), s2);
    lemma_tok_prefix(colon_tok(), s3);
    lemma_qstring_ws(sp(), c.question, s4);
    lemma_tok_prefix(comma_tok(), s5);
    lemma_tok_ws(nl6(), q_answers(), s6);
    lemma_tok_prefix(colon_tok(), s7);
    lemma_tok_ws(sp(), lbrack(), s8);
    lemma_qstring_ws(nl8(), c.answers[0], s9);
    lemma_tok_prefix(comma_tok(), s10);
    lemma_qstring_ws(nl8(), c.answers[1], s11);
    lemma_tok_prefix(comma_tok(), s12);
    lemma_qstring_ws(nl8(), c.answers[2], s13);
    lemma_tok_prefix(comma_tok(), s14);
    lemma_qstring_ws(nl8(), c.answers[3], s15);
    lemma_tok_ws(nl6(), rbrack(), s16);
    lemma_tok_ws(nl4(), rbrace(), rest);
    let parsed = AbsCandidate {
        question: c.question,
        answers: seq![c.answers[0], c.answers[1], c.answers[2], c.answers[3]],
    };
    assert(parse_candidate_body(s0) == Some((parsed, rest)));
    assert(parsed.answers =~= c.answers);
    assert(parsed == c);
}

/// Parsing the serialized later records recovers them.
proof fn lemma_items_roundtrip(hs: Seq<AbsCandidate>, rest: Seq<u8>)
    requires
        forall|i: int| 0 <= i < hs.len() ==> candidate_wf(#[trigger] hs[i]),
    ensures
        parse_items_rest(ser_rest(hs) + (nl2() + (rbrack() + rest))) == Some((hs, rest)),
    decreases hs.len(),
{
    lemma_ws_chunks();
    let x = ser_rest(hs) + (nl2() + (rbrack() + rest));
    if hs.len() == 0 {
        assert(ser_rest(hs) =~= Seq::<u8>::empty());
        assert(x =~= nl2() + (rbrack() + rest));
        lemma_tok_ws(nl2(), rbrack(), rest);
        assert(parse_items_rest(x) == Some((Seq::<AbsCandidate>::empty(), rest)));
        assert(Seq::<AbsCandidate>::empty() =~= hs);
    } else {
        let z = ser_rest(hs.skip(1)) + (nl2() + (rbrack() + rest));
        let y = nl4() + (ser_candidate(hs[0]) + z);
        assert(x =~= comma_tok() + y);
        assert(x[0] == 44);
        assert(skip_ws(x) == x);
        assert(tok(x, rbrack()) is None) by {
            if rbrack().len() <= x.len() && x.take(1) == rbrack() {
                assert(x.take(1)[0] == x[0]);
                assert(false);
            }
        }
        lemma_tok_prefix(comma_tok(), y);
        lemma_candidate_roundtrip(nl4(), hs[0], z);
        lemma_items_roundtrip(hs.skip(1), rest);
        assert(parse_items_rest(x) == Some((seq![hs[0]] + hs.skip(1), rest)));
        assert(seq![hs[0]] + hs.skip(1) =~= hs);
    }
}

/// Round trip: parsing a serialized history yields the same records, in the
/// same order.
#[verifier::rlimit(100)]
#[verifier::spinoff_prover]
pub proof fn lemma_store_round_trip(h: Seq<AbsCandidate>)
    requires
        forall|i: int| 0 <= i < h.len() ==> candidate_wf(#[trigger] h[i]),
    ensures
        parse_store_full(ser_store(h)) == Some(h),
{
    lemma_ws_chunks();
    let none: Seq<u8> = Seq::empty();
    if h.len() == 0 {
        let s5 = nl0() + (rbrace() + none);
        let s4 = rbrack() + s5;
        let s3 = sp() + (lbrack() + s4);
        let s2 = colon_tok() + s3;
        let s1 = nl2() + (q_responses() + s2);
        let s0 = lbrace() + s1;
        assert(ser_store(h) =~= s0);
        lemma_tok_prefix(lbrace(), s1);
        lemma_tok_ws(nl2(), q_responses(), s2);
        lemma_tok_prefix(colon_tok(), s3);
        lemma_tok_ws(sp(), lbrack(), s4);
        lemma_tok_prefix(rbrack(), s5);
        lemma_tok_ws(nl0(), rbrace(), none);
        assert(parse_store_body(s0) == Some((Seq::<AbsCandidate>::empty(), none)));
        assert(Seq::<AbsCandidate>::empty() =~= h);
        assert(skip_ws(none).len() == 0);
    } else {
        let s7 = nl0() + (rbrace() + none);
        let s6 = nl2() + (rbrack() + s7);
        let s5 = ser_rest(h.skip(1)) + s6;
        let s4 = nl4() + (ser_candidate(h[0]) + s5);
        let s3 = sp() + (lbrack() + s4);
        let s2 = colon_tok() + s3;
        let s1 = nl2() + (q_responses() + s2);
        let s0 = lbrace() + s1;
        assert(ser_store(h) =~= s0);
        lemma_tok_prefix(lbrace(), s1);
        lemma_tok_ws(nl2(), q_responses(), s2);
        lemma_tok_prefix(colon_tok(), s3);
        lemma_tok_ws(sp(), lbrack(), s4);
        let t = ser_candidate(h[0]) + s5;
        lemma_all_ws_skip(nl4(), t);
        assert(t[0] == 123) by {
            assert(ser_candidate(h[0])[0] == lit_question()[0]);
            assert(lit_question()[0] == lbrace()[0]);
        }
        assert(skip_ws(s4) == t);
        assert(tok(s4, rbrack()) is None) by {
            if rbrack().len() <= t.len() && t.take(1) == rbrack() {
                assert(t.take(1)[0] == t[0]);
                assert(false);
            }
        }
        lemma_candidate_roundtrip(nl4(), h[0], s5);
        lemma_items_roundtrip(h.skip(1), s7);
        lemma_tok_ws(nl0(), rbrace(), none);
        assert(parse_store_body(s0) == Some((seq![h[0]] + h.skip(1), none)));
        assert(seq![h[0]] + h.skip(1) =~= h);
        assert(skip_ws(none).len() == 0);
    }
}

} // verus!

