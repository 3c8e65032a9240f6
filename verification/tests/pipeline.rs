use poll_novelty::codec::parse_candidate;
use poll_novelty::codec::parse_store;
use poll_novelty::codec::serialize_store;
use poll_novelty::controller::Config;
use poll_novelty::controller::Controller;
use poll_novelty::controller::Phase;
use poll_novelty::controller::Rejection;
use poll_novelty::controller::Step;
use poll_novelty::poll::Candidate;
use poll_novelty::poll::HistoryStore;
use poll_novelty::publish::poll_params;
use poll_novelty::remote::build_similarity_prompt;
use poll_novelty::remote::parse_remote_score;
use poll_novelty::similarity::local_similarity;
use poll_novelty::text::normalize;

fn bytes(s: &str) -> Vec<u8> {
    s.as_bytes().to_vec()
}

fn candidate(question: &str, answers: [&str; 4]) -> Candidate {
    Candidate {
        question: bytes(question),
        answers: answers.iter().map(|a| bytes(a)).collect(),
    }
}

fn candidate_json(question: &str, answers: [&str; 4]) -> Vec<u8> {
    format!(
        "{{\"question\": \"{}\", \"answers\": [\"{}\", \"{}\", \"{}\", \"{}\"]}}",
        question, answers[0], answers[1], answers[2], answers[3]
    )
    .into_bytes()
}

#[test]
fn normalize_strips_case_and_stop_phrases() {
    let out = normalize(&bytes("What is your favorite color?"));
    assert_eq!(out, bytes(" is r favorite color"));
}

#[test]
fn normalize_is_idempotent_on_ordinary_input() {
    let once = normalize(&bytes("What do you think about winter?"));
    let twice = normalize(&once);
    assert_eq!(once, twice);
}

#[test]
fn validate_accepts_answers_at_the_limit() {
    let c = candidate("Is pizza good?", ["Yes", "No", "Maybe", &"x".repeat(50)]);
    assert!(c.validate());
}

#[test]
fn validate_rejects_an_answer_over_the_limit() {
    let c = candidate("Is pizza good?", ["Yes", "No", "Maybe", &"x".repeat(51)]);
    assert!(!c.validate());
}

#[test]
fn window_takes_the_most_recent_in_order() {
    let mut store = HistoryStore::empty();
    store.push(candidate("First?", ["a", "b", "c", "d"]));
    store.push(candidate("Second?", ["a", "b", "c", "d"]));
    store.push(candidate("Third?", ["a", "b", "c", "d"]));
    let w = store.recent_questions(2);
    assert_eq!(w.len(), 2);
    assert_eq!(w[0], bytes("Second?"));
    assert_eq!(w[1], bytes("Third?"));
    let all = store.recent_questions(8);
    assert_eq!(all.len(), 3);
    assert_eq!(all[0], bytes("First?"));
}

#[test]
fn serialize_empty_store() {
    let store = HistoryStore::empty();
    assert_eq!(serialize_store(&store), bytes("{\n  \"responses\": []\n}"));
}

#[test]
fn serialize_pretty_prints_one_record() {
    let mut store = HistoryStore::empty();
    store.push(candidate("Q?", ["a", "b", "c", "d"]));
    let expected = "{\n  \"responses\": [\n    {\n      \"question\": \"Q?\",\n      \"answers\": [\n        \"a\",\n        \"b\",\n        \"c\",\n        \"d\"\n      ]\n    }\n  ]\n}";
    assert_eq!(String::from_utf8(serialize_store(&store)).unwrap(), expected);
}

#[test]
fn store_round_trip_returns_equal_records() {
    let mut store = HistoryStore::empty();
    store.push(candidate("A \"quoted\" one with a \\ slash?", ["a", "b", "c", "d"]));
    store.push(candidate("Plain?", ["w", "x", "y", "z"]));
    store.push(candidate("Lines\nand\ttabs?", ["w", "x", "y", "z"]));
    let blob = serialize_store(&store);
    let back = parse_store(&blob).expect("round trip should parse");
    assert_eq!(back.records.len(), 3);
    for k in 0..3 {
        assert_eq!(back.records[k].question, store.records[k].question);
        assert_eq!(back.records[k].answers, store.records[k].answers);
    }
}

#[test]
fn parse_candidate_decodes_standard_escapes() {
    let raw = bytes("{\"question\": \"Line\\none\\ttab \\\"q\\\" and\\/or\\r\", \"answers\": [\"a\", \"b\", \"c\", \"d\"]}");
    let c = parse_candidate(&raw).expect("escapes should parse");
    assert_eq!(c.question, bytes("Line\none\ttab \"q\" and/or\r"));
}

#[test]
fn parse_candidate_rejects_unicode_escapes() {
    let raw = bytes("{\"question\": \"\\u0041\", \"answers\": [\"a\", \"b\", \"c\", \"d\"]}");
    assert!(parse_candidate(&raw).is_none());
}

#[test]
fn parse_candidate_accepts_the_generator_shape() {
    let raw = candidate_json("Is pizza good?", ["Yes", "No", "Maybe", "Only with pineapple"]);
    let c = parse_candidate(&raw).expect("well-formed reply should parse");
    assert_eq!(c.question, bytes("Is pizza good?"));
    assert_eq!(c.answers.len(), 4);
    assert_eq!(c.answers[3], bytes("Only with pineapple"));
}

#[test]
fn parse_candidate_rejects_wrong_shapes() {
    assert!(parse_candidate(&bytes("not json at all")).is_none());
    assert!(parse_candidate(&bytes("{\"question\": \"q\", \"answers\": [\"a\", \"b\", \"c\"]}"))
        .is_none());
    assert!(parse_candidate(&bytes("{\"question\": \"q\"}")).is_none());
}

#[test]
fn remote_score_parses_and_clamps() {
    let sc = parse_remote_score(&bytes("{\"similarity\": 0.2}")).expect("parses");
    assert_eq!((sc.num, sc.den), (2, 10));
    assert!(!sc.above(35, 100));
    let hi = parse_remote_score(&bytes("{\"similarity\": 0.5}")).expect("parses");
    assert!(hi.above(35, 100));
    let neg = parse_remote_score(&bytes("{\"similarity\": -0.3}")).expect("parses");
    assert_eq!((neg.num, neg.den), (0, 1));
    let big = parse_remote_score(&bytes("{\"similarity\": 1.25}")).expect("parses");
    assert_eq!((big.num, big.den), (1, 1));
    let exact = parse_remote_score(&bytes("{\"similarity\": 0.35}")).expect("parses");
    assert!(!exact.above(35, 100));
    assert!(parse_remote_score(&bytes("{\"similar\": 0.2}")).is_none());
    assert!(parse_remote_score(&bytes("0.2")).is_none());
}

#[test]
fn local_similarity_exact_value_for_near_duplicates() {
    let mut store = HistoryStore::empty();
    store.push(candidate("What is your favorite color?", ["a", "b", "c", "d"]));
    let sc = local_similarity(&bytes("what is your favourite colour?"), &store);
    // " is r favorite color" vs " is r favourite colour": distance 2, length 22
    assert_eq!((sc.num, sc.den), (20, 22));
    assert!(sc.above(49, 100));
}

#[test]
fn local_similarity_is_one_for_an_exact_match() {
    let mut store = HistoryStore::empty();
    store.push(candidate("Is winter cold?", ["a", "b", "c", "d"]));
    let sc = local_similarity(&bytes("Is winter cold?"), &store);
    assert_eq!(sc.num, sc.den);
}

#[test]
fn local_similarity_is_zero_when_byte_and_char_order_disagree() {
    // "abcde" is byte-shorter than "ééé" but has more characters: a pair the
    // metric cannot take, so it scores 0 instead of being compared.
    let mut store = HistoryStore::empty();
    store.push(candidate("ééé", ["a", "b", "c", "d"]));
    let sc = local_similarity(&bytes("abcde"), &store);
    assert_eq!((sc.num, sc.den), (0, 1));
    let mut store2 = HistoryStore::empty();
    store2.push(candidate("abcde", ["a", "b", "c", "d"]));
    let sc2 = local_similarity(&bytes("ééé"), &store2);
    assert_eq!((sc2.num, sc2.den), (0, 1));
}

#[test]
fn local_similarity_counts_characters_not_bytes() {
    // "éa" and "éb" hold three bytes but two characters each: one edit out
    // of two characters, so 1/2 rather than a byte-based 2/3.
    let mut store = HistoryStore::empty();
    store.push(candidate("éb", ["a", "b", "c", "d"]));
    let sc = local_similarity(&bytes("éa"), &store);
    assert_eq!((sc.num, sc.den), (1, 2));
}

#[test]
fn local_similarity_is_zero_on_empty_history() {
    let store = HistoryStore::empty();
    let sc = local_similarity(&bytes("Anything at all?"), &store);
    assert_eq!((sc.num, sc.den), (0, 1));
}

#[test]
fn scenario_empty_history_accepts_without_remote_call() {
    let store = HistoryStore::empty();
    let mut ctl = Controller::new(Config::standard(), store);
    let raw = candidate_json("Is pizza good?", ["Yes", "No", "Maybe", "Only with pineapple"]);
    let step = ctl.on_generated(&raw);
    assert!(matches!(step, Step::Accepted));
    assert_eq!(ctl.history.records.len(), 1);
    assert_eq!(ctl.history.records[0].question, bytes("Is pizza good?"));
    assert!(ctl.accepted_candidate().is_some());
}

#[test]
fn scenario_near_duplicate_is_rejected_locally() {
    let mut store = HistoryStore::empty();
    store.push(candidate("What is your favorite color?", ["a", "b", "c", "d"]));
    let mut ctl = Controller::new(Config::standard(), store);
    let raw = candidate_json("what is your favourite colour?", ["r", "g", "b", "mauve"]);
    let step = ctl.on_generated(&raw);
    assert!(matches!(step, Step::Retrying(Rejection::LocallySimilar)));
    assert_eq!(ctl.history.records.len(), 1);
}

#[test]
fn scenario_long_answer_fails_validation_before_any_similarity() {
    let store = HistoryStore::empty();
    let mut ctl = Controller::new(Config::standard(), store);
    let raw = candidate_json("Is pizza good?", ["Yes", "No", "Maybe", &"x".repeat(51)]);
    let step = ctl.on_generated(&raw);
    assert!(matches!(step, Step::Retrying(Rejection::AnswerTooLong)));
    assert_eq!(ctl.history.records.len(), 0);
}

#[test]
fn scenario_exhaustion_leaves_history_untouched() {
    let mut store = HistoryStore::empty();
    store.push(candidate("What is your favorite color?", ["a", "b", "c", "d"]));
    let mut ctl = Controller::new(Config::standard(), store);
    let before = ctl.history_bytes();
    let raw = candidate_json("Anything?", ["Yes", "No", "Maybe", &"x".repeat(51)]);
    for attempt in 1..=8 {
        let step = ctl.on_generated(&raw);
        if attempt < 8 {
            assert!(matches!(step, Step::Retrying(Rejection::AnswerTooLong)));
        } else {
            assert!(matches!(step, Step::GaveUp(Rejection::AnswerTooLong)));
        }
    }
    assert!(matches!(ctl.phase, Phase::Exhausted));
    assert_eq!(ctl.history_bytes(), before);
    assert!(ctl.accepted_candidate().is_none());
}

#[test]
fn remote_confirmation_vetoes_or_accepts() {
    let mut store = HistoryStore::empty();
    store.push(candidate("Is winter the best season?", ["a", "b", "c", "d"]));
    let mut ctl = Controller::new(Config::standard(), store);
    let raw = candidate_json("Do cats dream of electric mice?", ["Yes", "No", "Maybe", "Ask one"]);
    let step = ctl.on_generated(&raw);
    let prompt = match step {
        Step::NeedRemote(p) => p,
        _ => panic!("expected a remote confirmation request"),
    };
    let text = String::from_utf8(prompt).expect("prompt is text");
    assert!(text.contains("Sentence 1: \"Do cats dream of electric mice?\""));
    assert!(text.contains("Sentence 2: \"Is winter the best season?\""));
    let veto = ctl.on_remote(&bytes("{\"similarity\": 0.9}"));
    assert!(matches!(veto, Step::Retrying(Rejection::RemotelySimilar)));
    assert_eq!(ctl.history.records.len(), 1);

    let step2 = ctl.on_generated(&raw);
    assert!(matches!(step2, Step::NeedRemote(_)));
    let ok = ctl.on_remote(&bytes("{\"similarity\": 0.1}"));
    assert!(matches!(ok, Step::Accepted));
    assert_eq!(ctl.history.records.len(), 2);
}

#[test]
fn remote_parse_failure_is_fatal() {
    let mut store = HistoryStore::empty();
    store.push(candidate("Is winter the best season?", ["a", "b", "c", "d"]));
    let mut ctl = Controller::new(Config::standard(), store);
    let raw = candidate_json("Do cats dream of electric mice?", ["Yes", "No", "Maybe", "Ask one"]);
    let step = ctl.on_generated(&raw);
    assert!(matches!(step, Step::NeedRemote(_)));
    let bad = ctl.on_remote(&bytes("I cannot answer that."));
    assert!(matches!(bad, Step::Fatal));
    assert!(matches!(ctl.phase, Phase::Failed));
}

#[test]
fn generator_parse_failure_is_fatal_and_consumes_no_attempt() {
    let store = HistoryStore::empty();
    let mut ctl = Controller::new(Config::standard(), store);
    let step = ctl.on_generated(&bytes("gibberish"));
    assert!(matches!(step, Step::Fatal));
    assert!(matches!(ctl.phase, Phase::Failed));
    assert_eq!(ctl.attempts, 0);
}

#[test]
fn poll_params_lists_the_form_entries_in_order() {
    let c = candidate("Is pizza good?", ["Yes", "No", "Maybe", "Only with pineapple"]);
    let ps = poll_params(&c, 72000);
    let as_text: Vec<(String, String)> = ps
        .into_iter()
        .map(|(k, v)| {
            (String::from_utf8(k).unwrap(), String::from_utf8(v).unwrap())
        })
        .collect();
    assert_eq!(as_text[0], ("status".to_string(), "Is pizza good?".to_string()));
    assert_eq!(as_text[1], ("visibility".to_string(), "public".to_string()));
    assert_eq!(as_text[2], ("language".to_string(), "en".to_string()));
    assert_eq!(as_text[3], ("poll[options][]".to_string(), "Yes".to_string()));
    assert_eq!(as_text[6], ("poll[options][]".to_string(), "Only with pineapple".to_string()));
    assert_eq!(as_text[7], ("poll[expires_in]".to_string(), "72000".to_string()));
    assert_eq!(as_text.len(), 8);
}

#[test]
fn similarity_prompt_has_the_documented_shape() {
    let cq = bytes("First question?");
    let ws = vec![bytes("Older one?"), bytes("Newer one?")];
    let p = build_similarity_prompt(&cq, &ws);
    let text = String::from_utf8(p).unwrap();
    let expected = format!(
        "{}\nSentence 1: \"First question?\"\nSentence 2: \"Older one?\"\nSentence 3: \"Newer one?\"\n",
        "Respond only with JSON with float field \"similarity\". Compare similarity of first sentence with other sentences, return max value."
    );
    assert_eq!(text, expected);
}
