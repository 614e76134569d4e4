use worsd::matcher::Mark;
use worsd::session::{contains_word, words_lower, GameSession, Message, SubmitError};

fn words() -> Vec<String> {
    ["crane", "slate", "worsd", "hello", "speed"].iter().map(|w| w.to_string()).collect()
}

fn session(target: &str) -> GameSession {
    GameSession::new(words(), target.to_string()).expect("target is a word")
}

#[test]
fn target_outside_vocabulary_is_refused() {
    assert!(GameSession::new(words(), "zzzzz".to_string()).is_none());
    assert!(GameSession::new(vec![], "crane".to_string()).is_none());
}

#[test]
fn vocabulary_with_upper_case_is_refused() {
    let mixed: Vec<String> = vec!["crane".to_string(), "Slate".to_string()];
    assert!(GameSession::new(mixed, "crane".to_string()).is_none());
    let upper: Vec<String> = vec!["CRANE".to_string()];
    assert!(GameSession::new(upper, "CRANE".to_string()).is_none());
}

#[test]
fn new_session_is_empty_and_unsolved() {
    let s = session("crane");
    let view = s.current_view();
    assert!(view.history.is_empty());
    assert!(!view.solved);
    assert_eq!(view.keyboard.get('c'), Mark::Unknown);
    assert_eq!(s.target(), "crane");
    assert_eq!(s.input(), "");
}

#[test]
fn unknown_word_is_refused_and_leaves_no_trace() {
    let mut s = session("crane");
    s.submit("slate").expect("valid word");
    let before = s.current_view().history.len();
    assert!(matches!(s.submit("abcde"), Err(SubmitError::NotInVocabulary)));
    assert_eq!(s.current_view().history.len(), before);
    assert_eq!(before, 1);
}

#[test]
fn wrong_length_is_refused() {
    let mut s = session("crane");
    assert!(matches!(s.submit("cran"), Err(SubmitError::WrongLength)));
    assert!(matches!(s.submit("cranes"), Err(SubmitError::WrongLength)));
    assert!(matches!(s.submit(""), Err(SubmitError::WrongLength)));
    assert!(s.current_view().history.is_empty());
}

#[test]
fn accepted_guess_reports_marks_and_keyboard() {
    let mut s = session("crane");
    let out = s.submit("slate").expect("valid word");
    assert_eq!(
        out.result,
        vec![
            ('s', Mark::Absent),
            ('l', Mark::Absent),
            ('a', Mark::Correct),
            ('t', Mark::Absent),
            ('e', Mark::Correct)
        ]
    );
    assert_eq!(out.keyboard.get('a'), Mark::Correct);
    assert_eq!(out.keyboard.get('s'), Mark::Absent);
    assert_eq!(out.keyboard.get('c'), Mark::Unknown);
    assert!(!out.solved);
}

#[test]
fn guessing_the_target_solves_for_good() {
    let mut s = session("crane");
    assert!(!s.solved());
    s.submit("slate").expect("valid word");
    assert!(!s.solved());
    let out = s.submit("crane").expect("valid word");
    assert!(out.solved);
    assert!(s.solved());
    let later = s.submit("hello").expect("valid word");
    assert!(!later.solved);
    assert!(s.solved());
    assert!(s.current_view().solved);
    assert_eq!(s.current_view().history.len(), 3);
}

#[test]
fn guess_is_case_folded() {
    let mut s = session("crane");
    let out = s.submit("CrAnE").expect("valid word after folding");
    assert!(out.solved);
    assert_eq!(out.result[0], ('c', Mark::Correct));
}

#[test]
fn view_recomputes_every_guess() {
    let mut s = session("hello");
    s.submit("speed").unwrap();
    s.submit("worsd").unwrap();
    let view = s.current_view();
    assert_eq!(view.history.len(), 2);
    assert_eq!(view.history[0][2], ('e', Mark::Present));
    assert_eq!(view.history[0][3], ('e', Mark::Absent));
    assert_eq!(view.history[1][1], ('o', Mark::Present));
    assert_eq!(view.keyboard.get('o'), Mark::Present);
    assert_eq!(view.keyboard.get('e'), Mark::Present);
    assert_eq!(view.keyboard.get('d'), Mark::Absent);
}

#[test]
fn input_buffer_is_submitted_and_cleared() {
    let mut s = session("crane");
    assert!(s.update(Message::NewWordChange("slate".to_string())).is_none());
    assert_eq!(s.input(), "slate");
    let r = s.update(Message::NewWordSubmit).expect("a submission");
    assert!(r.is_ok());
    assert_eq!(s.input(), "");
    s.set_input("qqqqq".to_string());
    assert!(matches!(s.submit_input(), Err(SubmitError::NotInVocabulary)));
    assert_eq!(s.input(), "qqqqq");
    assert_eq!(s.current_view().history.len(), 1);
}

#[test]
fn independent_sessions_do_not_interfere() {
    let mut a = session("crane");
    let b = session("crane");
    a.submit("crane").unwrap();
    assert!(a.solved());
    assert!(!b.solved());
    assert!(b.current_view().history.is_empty());
}

#[test]
fn vocabulary_lookup() {
    assert!(contains_word(&words(), &"hello".to_string()));
    assert!(!contains_word(&words(), &"hell".to_string()));
    assert!(!contains_word(&vec![], &"hello".to_string()));
}

#[test]
fn update_refuses_unknown_and_wrong_length_words() {
    let mut s = session("crane");
    s.update(Message::NewWordChange("qqqqq".to_string()));
    let r = s.update(Message::NewWordSubmit).expect("a submission");
    assert!(matches!(r, Err(SubmitError::NotInVocabulary)));
    assert_eq!(s.input(), "qqqqq");
    s.update(Message::NewWordChange("cra".to_string()));
    let r = s.update(Message::NewWordSubmit).expect("a submission");
    assert!(matches!(r, Err(SubmitError::WrongLength)));
    assert!(s.current_view().history.is_empty());
    assert!(!s.solved());
}

#[test]
fn update_accepts_folded_target_and_reports_outcome() {
    let mut s = session("crane");
    s.update(Message::NewWordChange("SLATE".to_string()));
    let first = s.update(Message::NewWordSubmit).expect("a submission").expect("accepted");
    assert_eq!(first.result[2], ('a', Mark::Correct));
    assert_eq!(first.keyboard.get('s'), Mark::Absent);
    assert!(!first.solved);
    assert_eq!(s.input(), "");
    s.update(Message::NewWordChange("Crane".to_string()));
    let second = s.update(Message::NewWordSubmit).expect("a submission").expect("accepted");
    assert!(second.solved);
    assert_eq!(second.keyboard.get('c'), Mark::Correct);
    assert_eq!(second.keyboard.get('s'), Mark::Absent);
    assert!(s.solved());
    assert_eq!(s.current_view().history.len(), 2);
}

#[test]
fn lower_case_check_on_words() {
    assert!(words_lower(&words()));
    assert!(words_lower(&vec![]));
    assert!(!words_lower(&vec!["hellO".to_string()]));
}
