use worsd::definitions::{collect_definitions, definition_url};
use worsd::vocabulary::{pick_target, target_at, vocabulary_from};
use worsd::word::{chars_of, fold_case, is_lower, lower_letter, parse_word_list};

#[test]
fn word_list_keeps_five_letter_words() {
    let text = "crane  slate\nab\tverylongword\r\nworsd\x0Cspeed";
    assert_eq!(parse_word_list(text), vec!["crane", "slate", "worsd", "speed"]);
    assert_eq!(parse_word_list(""), Vec::<String>::new());
    assert_eq!(parse_word_list("   \n "), Vec::<String>::new());
    assert_eq!(parse_word_list("hello"), vec!["hello"]);
    assert_eq!(parse_word_list("sixsix hello "), vec!["hello"]);
}

#[test]
fn vocabulary_falls_back_when_empty() {
    assert_eq!(vocabulary_from(""), vec!["worsd"]);
    assert_eq!(vocabulary_from("a bb ccc"), vec!["worsd"]);
    assert_eq!(vocabulary_from("crane slate"), vec!["crane", "slate"]);
    assert_eq!(vocabulary_from("CRANE Slate apple"), vec!["crane", "slate", "apple"]);
}

#[test]
fn target_is_drawn_from_the_words() {
    let words: Vec<String> = vec!["crane".to_string(), "slate".to_string()];
    for _ in 0..50 {
        let t = pick_target(&words).expect("non-empty");
        assert!(words.contains(&t));
    }
    let one = vec!["worsd".to_string()];
    assert_eq!(pick_target(&one), Some("worsd".to_string()));
    assert_eq!(pick_target(&vec![]), None);
}

#[test]
fn target_by_index() {
    let words: Vec<String> = vec!["crane".to_string(), "slate".to_string()];
    assert_eq!(target_at(&words, 1), Some("slate".to_string()));
    assert_eq!(target_at(&words, 2), None);
}

#[test]
fn folding_lowers_latin_capitals_only() {
    assert_eq!(fold_case("CrAnE"), "crane");
    assert_eq!(fold_case("a-Z@[`"), "a-z@[`");
    assert_eq!(fold_case(""), "");
    assert_eq!(lower_letter('Q'), 'q');
    assert_eq!(lower_letter('q'), 'q');
    assert_eq!(lower_letter('É'), 'É');
}

#[test]
fn letters_of_a_word() {
    assert_eq!(chars_of("abc"), vec!['a', 'b', 'c']);
    assert_eq!(chars_of(""), Vec::<char>::new());
}

#[test]
fn dictionary_address() {
    assert_eq!(definition_url("crane"), "https://api.dictionaryapi.dev/api/v2/entries/en/crane");
}

#[test]
fn definitions_are_flattened_in_order() {
    let meanings = vec![
        vec![Some("a bird".to_string()), None, Some("a machine".to_string())],
        vec![],
        vec![Some("to stretch the neck".to_string())],
    ];
    assert_eq!(
        collect_definitions(&meanings),
        vec!["a bird", "a machine", "to stretch the neck"]
    );
    assert_eq!(collect_definitions(&vec![]), Vec::<String>::new());
}

#[test]
fn lower_case_check_on_text() {
    assert!(is_lower("crane"));
    assert!(is_lower(""));
    assert!(is_lower("a-z@["));
    assert!(!is_lower("craNe"));
}
