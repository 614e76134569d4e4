use worsd::keyboard::{aggregate, KeyboardState};
use worsd::matcher::{evaluate, Mark};

fn eval(guess: &str, target: &str) -> Vec<(char, Mark)> {
    evaluate(guess, target).expect("equal lengths")
}

fn all_marks(k: &KeyboardState) -> Vec<Mark> {
    ('a'..='z').map(|c| k.get(c)).collect()
}

#[test]
fn empty_history_leaves_every_letter_unknown() {
    let k = aggregate(&vec![]);
    assert!(all_marks(&k).iter().all(|m| *m == Mark::Unknown));
}

#[test]
fn keyboard_keeps_best_mark_per_letter() {
    let k = aggregate(&vec![eval("abba", "zzbb")]);
    assert_eq!(k.get('a'), Mark::Absent);
    assert_eq!(k.get('b'), Mark::Correct);
    assert_eq!(k.get('z'), Mark::Unknown);
}

#[test]
fn aggregation_ignores_order() {
    let r1 = eval("bbaa", "zzbb");
    let r2 = eval("abba", "zzbb");
    let k12 = aggregate(&vec![r1.clone(), r2.clone()]);
    let k21 = aggregate(&vec![r2, r1]);
    assert_eq!(all_marks(&k12), all_marks(&k21));
}

#[test]
fn correct_letter_stays_correct() {
    let r1 = eval("abb", "zzb");
    let r2 = eval("bba", "zzb");
    let before = aggregate(&vec![r1.clone()]);
    assert_eq!(before.get('b'), Mark::Correct);
    let after = aggregate(&vec![r1, r2]);
    assert_eq!(after.get('b'), Mark::Correct);
    assert_eq!(after.get('a'), Mark::Absent);
}

#[test]
fn present_letter_does_not_fall_back_to_absent() {
    let mut k = KeyboardState::new();
    k.absorb_result(&eval("bba", "zzb"));
    assert_eq!(k.get('b'), Mark::Present);
    k.absorb_result(&eval("bab", "zzb"));
    assert_eq!(k.get('b'), Mark::Correct);
    k.absorb_result(&eval("baa", "zzb"));
    assert_eq!(k.get('b'), Mark::Correct);
}

#[test]
fn upgrade_keeps_higher_mark() {
    let mut k = KeyboardState::new();
    k.upgrade('q', Mark::Present);
    k.upgrade('q', Mark::Absent);
    assert_eq!(k.get('q'), Mark::Present);
    k.upgrade('q', Mark::Correct);
    assert_eq!(k.get('q'), Mark::Correct);
}
