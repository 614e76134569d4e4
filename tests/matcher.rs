use worsd::matcher::{evaluate, stronger, EvalError, Mark};

use Mark::{Absent, Correct, Present};

fn eval(guess: &str, target: &str) -> Vec<(char, Mark)> {
    evaluate(guess, target).expect("equal lengths")
}

#[test]
fn repeated_guess_letter_takes_exact_match_first() {
    assert_eq!(eval("abb", "zzb"), vec![('a', Absent), ('b', Absent), ('b', Correct)]);
}

#[test]
fn single_target_letter_serves_one_misplaced_guess_letter() {
    assert_eq!(eval("aba", "zzb"), vec![('a', Absent), ('b', Present), ('a', Absent)]);
}

#[test]
fn leftmost_guess_letter_wins_the_misplaced_match() {
    assert_eq!(eval("bba", "zzb"), vec![('b', Present), ('b', Absent), ('a', Absent)]);
}

#[test]
fn two_target_letters_serve_two_misplaced_guess_letters() {
    assert_eq!(
        eval("bbaa", "zzbb"),
        vec![('b', Present), ('b', Present), ('a', Absent), ('a', Absent)]
    );
}

#[test]
fn exact_and_misplaced_share_a_repeated_letter() {
    assert_eq!(
        eval("abba", "zzbb"),
        vec![('a', Absent), ('b', Present), ('b', Correct), ('a', Absent)]
    );
}

#[test]
fn long_word_with_many_repeats() {
    assert_eq!(
        eval("abbcabbab", "zzbbzcbbz"),
        vec![
            ('a', Absent),
            ('b', Present),
            ('b', Correct),
            ('c', Present),
            ('a', Absent),
            ('b', Present),
            ('b', Correct),
            ('a', Absent),
            ('b', Absent),
        ]
    );
}

#[test]
fn five_letter_word_with_exact_and_misplaced_letters() {
    assert_eq!(
        eval("abbzz", "zzbzz"),
        vec![('a', Absent), ('b', Absent), ('b', Correct), ('z', Correct), ('z', Correct)]
    );
}

#[test]
fn different_lengths_are_rejected() {
    assert_eq!(evaluate("abcd", "abcde"), Err(EvalError::InvalidLength));
    assert_eq!(evaluate("", "a"), Err(EvalError::InvalidLength));
}

#[test]
fn empty_words_give_an_empty_result() {
    assert_eq!(eval("", ""), vec![]);
}

#[test]
fn guess_equal_to_target_is_all_correct() {
    assert_eq!(
        eval("crane", "crane"),
        vec![('c', Correct), ('r', Correct), ('a', Correct), ('n', Correct), ('e', Correct)]
    );
}

#[test]
fn correct_count_equals_agreeing_positions() {
    let pairs = [("abbcabbab", "zzbbzcbbz"), ("speed", "erase"), ("llama", "hello"), ("aaaaa", "abaca")];
    for (g, t) in pairs {
        let r = eval(g, t);
        let correct = r.iter().filter(|p| p.1 == Correct).count();
        let agree = g.chars().zip(t.chars()).filter(|(a, b)| a == b).count();
        assert_eq!(correct, agree, "{} against {}", g, t);
    }
}

#[test]
fn marks_never_outnumber_target_letters() {
    let pairs = [("abbcabbab", "zzbbzcbbz"), ("speed", "erase"), ("llama", "hello"), ("aaaaa", "abaca")];
    for (g, t) in pairs {
        let r = eval(g, t);
        for letter in g.chars() {
            let hits = r.iter().filter(|p| p.0 == letter && p.1 != Absent).count();
            let in_target = t.chars().filter(|c| *c == letter).count();
            assert!(hits <= in_target, "{} in {} against {}", letter, g, t);
        }
    }
}

#[test]
fn speed_against_erase() {
    assert_eq!(
        eval("speed", "erase"),
        vec![('s', Present), ('p', Absent), ('e', Present), ('e', Present), ('d', Absent)]
    );
}

#[test]
fn evaluation_is_repeatable() {
    let first = evaluate("llama", "hello");
    let second = evaluate("llama", "hello");
    assert_eq!(first, second);
    assert_eq!(
        first,
        Ok(vec![('l', Present), ('l', Present), ('a', Absent), ('m', Absent), ('a', Absent)])
    );
}

#[test]
fn stronger_follows_precedence() {
    assert_eq!(stronger(Mark::Unknown, Absent), Absent);
    assert_eq!(stronger(Absent, Present), Present);
    assert_eq!(stronger(Correct, Present), Correct);
    assert_eq!(stronger(Present, Absent), Present);
    assert_eq!(stronger(Mark::Unknown, Mark::Unknown), Mark::Unknown);
}
