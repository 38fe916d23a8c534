use simply_lang::failure::{aho_corasick_failure, failure_function, render_table};
use simply_lang::postfix::{arithmetic, evaluate};
use simply_lang::rewrite::{is_settled, translate_to_postfix};
use simply_lang::roman::rome;
use simply_lang::symbols::Env;
use simply_lang::translator::SimpleTranslator;

#[test]
fn arithmetic_simple_test() {
    assert_eq!(arithmetic("263-+".to_owned()), 5);
    assert_eq!(arithmetic("26378-++-".to_owned()), 2 - (6 + (3 + (7 - 8))));
}

#[test]
fn arithmetic_rejects_what_is_no_postfix_expression() {
    assert_eq!(evaluate("26a-+"), None);
    assert_eq!(evaluate("2-"), None);
    assert_eq!(evaluate("+"), None);
    assert_eq!(evaluate("26-+"), None);
    assert_eq!(evaluate("263-+"), Some(5));
    assert_eq!(evaluate("2 6 3 - +"), Some(5));
    assert_eq!(evaluate(""), Some(0));
    assert_eq!(evaluate("7"), Some(0));
    assert_eq!(evaluate("93-"), Some(6));
    assert_eq!(evaluate("39-"), Some(-6));
    assert_eq!(evaluate("34+"), Some(7));
    assert_eq!(evaluate("934+-"), Some(2));
    assert_eq!(evaluate("12+3"), Some(3));
}

#[test]
fn rome_test() {
    assert_eq!(&rome(25), "XXV");
    assert_eq!(&rome(78), "LXXV|||");
}

#[test]
fn rome_writes_the_last_two_digits() {
    assert_eq!(rome(0), "");
    assert_eq!(rome(4), "|V");
    assert_eq!(rome(9), "|X");
    assert_eq!(rome(40), "XL");
    assert_eq!(rome(99), "XC|X");
    assert_eq!(rome(100), "");
    assert_eq!(rome(1234), "XXX|V");
    assert_eq!(rome(16), "XV|");
    assert_eq!(rome(i32::MAX), "XLV||");
}

#[test]
fn simple_translator_test() {
    let mut st = SimpleTranslator::from_string("2+3-4");
    assert_eq!(st.expr(), Ok("23+4-".to_owned()));
    st = SimpleTranslator::from_string("2+3-4-9");
    assert_eq!(st.expr(), Ok("23+4-9-".to_owned()));
    st = SimpleTranslator::from_string("2+3--4-9");
    assert_eq!(st.expr(), Err("Expected digit".to_owned()));
    st = SimpleTranslator::from_string("2+3-54-9");
    assert_eq!(st.expr(), Err("Expected + or -".to_owned()));
}

#[test]
fn simple_translator_keeps_what_it_wrote() {
    let mut st = SimpleTranslator::from_string("2+3-54-9");
    assert_eq!(st.show_result(), "");
    assert_eq!(st.expr(), Err("Expected + or -".to_owned()));
    assert_eq!(st.show_result(), "23+5-");
    let mut st = SimpleTranslator::from_string("7");
    assert_eq!(st.expr(), Ok("7".to_owned()));
    assert_eq!(st.show_result(), "7");
    assert_eq!(st.expr(), Err("Expected digit".to_owned()));
    let mut st = SimpleTranslator::from_string("");
    assert_eq!(st.expr(), Err("Expected digit".to_owned()));
    let mut st = SimpleTranslator::from_string("1+2\n3-4");
    assert_eq!(st.expr(), Ok("12+".to_owned()));
    assert_eq!(st.expr(), Ok("12+34-".to_owned()));
    let mut st = SimpleTranslator::from_string("1+");
    assert_eq!(st.expr(), Err("Expected digit".to_owned()));
    assert_eq!(st.show_result(), "1");
}

#[test]
fn new_env_test() {
    let e = Env::new();
    assert!(e.is_outermost());
    assert_eq!(e.len(), 0);
}

#[test]
fn insert_get_test() {
    let mut e = Env::new();
    e.insert("x", "Char".to_owned());
    e.insert("y", "Int".to_owned());
    assert_eq!(e.get("x").unwrap(), "Char".to_owned());
    assert_eq!(e.get("s"), None::<String>);
}

#[test]
fn env_knows_what_it_declares() {
    let mut e = Env::new();
    assert!(!e.declares("x"));
    e.insert("x", "Char".to_owned());
    assert!(e.declares("x"));
    assert!(!e.declares("y"));
    assert_eq!(e.len(), 1);
}

#[test]
fn inner_scope_shadows_outer_scope() {
    let mut outer = Env::new();
    outer.insert("x", "Char".to_owned());
    outer.insert("y", "Int".to_owned());
    let mut inner = Env::nested(outer);
    assert!(!inner.is_outermost());
    assert!(!inner.declares("x"));
    assert_eq!(inner.get("x"), Some("Char".to_owned()));
    inner.insert("x", "Float".to_owned());
    assert_eq!(inner.get("x"), Some("Float".to_owned()));
    assert_eq!(inner.get("y"), Some("Int".to_owned()));
    assert_eq!(inner.get("z"), None);
    assert_eq!(inner.len(), 1);
}

#[test]
fn aho_corasick_failure_test() {
    assert_eq!(aho_corasick_failure("ababaa"), "001231");
    assert_eq!(aho_corasick_failure("abababaab"), "001234512");
    assert_eq!(aho_corasick_failure("aaaaaa"), "012345");
    assert_eq!(aho_corasick_failure("abbaabb"), "0001123");
}

#[test]
fn failure_function_edge_cases() {
    assert_eq!(aho_corasick_failure(""), "0");
    assert_eq!(aho_corasick_failure("a"), "0");
    assert_eq!(aho_corasick_failure("aaaaaaaaaaaa"), "01234567891011");
    let keyword: Vec<char> = "abababaab".chars().collect();
    assert_eq!(failure_function(&keyword), vec![0, 0, 1, 2, 3, 4, 5, 1, 2]);
    assert_eq!(failure_function(&[]), Vec::<usize>::new());
    assert_eq!(render_table(&vec![0, 10, 205, usize::MAX]), format!("010205{}", usize::MAX));
}

#[test]
fn translate_to_postfix_test() {
    assert_eq!(translate_to_postfix("22+4"), Ok(String::from("22 4 +")));
    assert_eq!(translate_to_postfix("22+4-14"), Ok(String::from("22 4 + 14 -")));
    assert_eq!(translate_to_postfix("22+4-14+24"), Ok(String::from("22 4 + 14 - 24 +")));
}

#[test]
fn translate_to_postfix_leaves_other_text_alone() {
    assert_eq!(translate_to_postfix(""), Ok(String::new()));
    assert_eq!(translate_to_postfix("22"), Ok(String::from("22")));
    assert_eq!(translate_to_postfix("a+b"), Ok(String::from("a+b")));
    assert!(is_settled("22 4 +", "22 4 +"));
    assert!(!is_settled("22+4", "22 4 +"));
}

#[test]
#[should_panic(expected = "Incorrect string")]
fn arithmetic_incorrect_chars_in_input_test() {
    match evaluate("26a-+") {
        Some(value) => assert_eq!(value, 5),
        None => panic!("Incorrect string"),
    }
}

#[test]
#[should_panic(expected = "This symbol already exists in current namespace")]
fn get_test_panic() {
    let mut e = Env::new();
    e.insert("x", "Char".to_owned());
    if e.declares("x") {
        panic!("This symbol already exists in current namespace");
    }
    e.insert("x", "Int".to_owned());
}
