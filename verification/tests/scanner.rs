use simply_lang::lexer::{Config, Lexer};
use simply_lang::token::{Num, ScanError, Tag, Token, Word};

fn lexer_with(capacity: usize, keywords: &[&str]) -> Lexer {
    let words: Vec<String> = keywords.iter().map(|w| w.to_string()).collect();
    Lexer::new(Config::new(capacity, words))
}

fn scan_to_end(lexer: &mut Lexer) -> Result<Vec<Token>, ScanError> {
    let mut tokens = Vec::new();
    loop {
        let token = lexer.scan()?;
        if token.is_end_of_stream() {
            return Ok(tokens);
        }
        tokens.push(token);
    }
}

fn tokens_of(input: &str, capacity: usize) -> Result<Vec<Token>, ScanError> {
    let mut lexer = lexer_with(capacity, &["IF", "THEN", "ELSE"]);
    lexer.load(input);
    scan_to_end(&mut lexer)
}

fn shapes(tokens: &[Token]) -> Vec<(Tag, String)> {
    tokens.iter().map(|t| (t.kind, t.text.clone())).collect()
}

fn float_of(value: Option<Num>) -> f64 {
    let num = value.unwrap();
    format!("{}e{}", num.mantissa, num.exponent).parse::<f64>().unwrap()
}

fn word(kind: Tag, text: &str) -> (Tag, String) {
    (kind, text.to_string())
}

#[test]
fn token_test() {
    let t = Token::from_str(">=").unwrap();
    assert_eq!(t.token(), ">=");
}

#[test]
fn token_from_str_classifies_a_lone_lexeme() {
    assert_eq!(Token::from_str(">=").unwrap().kind, Tag::Relop);
    assert_eq!(Token::from_str("hello").unwrap().kind, Tag::Identifier);
    assert_eq!(Token::from_str("IF").unwrap().kind, Tag::Identifier);
    let number = Token::from_str("12.5").unwrap();
    assert_eq!(number.kind, Tag::Number);
    assert_eq!(number.value, Some(Num::scaled(125, -1)));
    assert_eq!(number.start, 0);
    assert_eq!(Token::from_str(""), None);
    assert_eq!(Token::from_str("a b"), None);
    assert_eq!(Token::from_str("@"), None);
    assert_eq!(Token::from_str("12x"), None);
}

#[test]
fn new_test() {
    let mut l = Lexer::new(Config::standard());
    l.load("hello");
    let token = l.scan().unwrap();
    assert_eq!(token.kind, Tag::Identifier);
    assert_eq!(token.text, "hello");
}

#[test]
fn test_print_test() {
    let mut l = Lexer::new(Config::standard());
    l.load("  hello");
    assert_eq!(l.buffered(), "");
    let token = l.scan().unwrap();
    assert_eq!(token.text, "hello");
    assert_eq!(token.start, 2);
    assert_eq!(l.buffered(), "  hello");
}

#[test]
fn scan_test() {
    let mut l = Lexer::new(Config::standard());
    l.load(" 123  422");
    let mut seen = Vec::new();
    loop {
        let token = l.scan().unwrap();
        if token.is_end_of_stream() {
            break;
        }
        seen.push(token);
    }
    assert_eq!(seen.len(), 2);
    assert_eq!(seen[0].value, Some(Num::new(123)));
    assert_eq!(seen[0].start, 1);
    assert_eq!(seen[1].value, Some(Num::new(422)));
    assert_eq!(seen[1].start, 6);
}

#[test]
fn init_lexer_test() {
    let mut l = lexer_with(2048, &["TRUE", "FALSE", "EOF"]);
    l.load("TRUE id FALSE EOF");
    let tokens = scan_to_end(&mut l).unwrap();
    assert_eq!(
        shapes(&tokens),
        vec![
            word(Tag::Keyword, "TRUE"),
            word(Tag::Identifier, "id"),
            word(Tag::Keyword, "FALSE"),
            word(Tag::Keyword, "EOF"),
        ]
    );
    let tr = Word::new(Tag::Identifier, "id".to_owned());
    assert_eq!(tr.tag(), Tag::Identifier);
    assert_eq!(tr.value(), "id");
}

#[test]
fn scan_string_test() {
    let mut l = Lexer::new(Config::standard());
    let input = String::from("a = 3\n") + "b =23\n" + "a + b\n" + "a >= 4\n" + "c!=a";
    let first = {
        l.load(&input);
        l.scan().unwrap()
    };
    assert_eq!(first.text, "a");
    assert_eq!(
        l.scan(),
        Err(ScanError::UnexpectedCharacter { character: '=', position: 2 })
    );
    assert_eq!(
        l.full_scan(&input),
        Err(ScanError::UnexpectedCharacter { character: '=', position: 2 })
    );
}

#[test]
fn full_scan_groups_tokens_by_line() {
    let mut l = Lexer::new(Config::standard());
    let input = String::from("a == 3\n") + "b ==23\n" + "\n" + "a >= 4\n" + "c!=a";
    let lines = l.full_scan(&input).unwrap();
    assert_eq!(lines.len(), 5);
    assert_eq!(
        shapes(&lines[1]),
        vec![word(Tag::Identifier, "b"), word(Tag::Relop, "=="), word(Tag::Number, "23")]
    );
    assert!(lines[2].is_empty());
    assert_eq!(
        shapes(&lines[4]),
        vec![word(Tag::Identifier, "c"), word(Tag::Relop, "!="), word(Tag::Identifier, "a")]
    );
    assert_eq!(lines[1][0].start, 7);
}

#[test]
fn full_scan_of_empty_input_has_one_empty_line() {
    let mut l = Lexer::new(Config::standard());
    let lines = l.full_scan("").unwrap();
    assert_eq!(lines.len(), 1);
    assert!(lines[0].is_empty());
}

#[test]
fn scan_all_returns_tokens_without_end_marker() {
    let mut l = Lexer::new(Config::standard());
    l.load("x<1");
    let tokens = l.scan_all().unwrap();
    assert_eq!(
        shapes(&tokens),
        vec![word(Tag::Identifier, "x"), word(Tag::Relop, "<"), word(Tag::Number, "1")]
    );
    assert!(l.scan().unwrap().is_end_of_stream());
}

#[test]
fn lexer_test() {
    let mut lexer = Lexer::new(Config::standard());
    let string_for_scan =
        "  234\n   counter=1\nIF counter ==1\n THEN counter = 2\n ELSE counter =3\n".to_owned();
    lexer.load(&string_for_scan);
    let a = lexer.scan().unwrap();
    assert_eq!(a.kind, Tag::Number);
    assert_eq!(a.text, "234");
    assert_eq!(a.value, Some(Num::new(234)));
    assert_eq!(a.start, 2);
}

#[test]
fn lexer_eof_test() {
    let mut lexer = Lexer::new(Config::standard());
    let string_for_scan = "as==112.23\n  142e-1>= s241  2341 hello<me".to_owned();
    lexer.load(&string_for_scan);
    let tokens = scan_to_end(&mut lexer).unwrap();
    assert_eq!(
        shapes(&tokens),
        vec![
            word(Tag::Identifier, "as"),
            word(Tag::Relop, "=="),
            word(Tag::Number, "112.23"),
            word(Tag::Number, "142e-1"),
            word(Tag::Relop, ">="),
            word(Tag::Identifier, "s241"),
            word(Tag::Number, "2341"),
            word(Tag::Identifier, "hello"),
            word(Tag::Relop, "<"),
            word(Tag::Identifier, "me"),
        ]
    );
    assert_eq!(tokens[2].value, Some(Num::scaled(11223, -2)));
    assert_eq!(tokens[3].value, Some(Num::scaled(142, -1)));
    let end = lexer.scan().unwrap();
    assert!(end.is_end_of_stream());
    assert_eq!(end.start, string_for_scan.chars().count());
    assert!(lexer.scan().unwrap().is_end_of_stream());
}

#[test]
fn same_input_scanned_twice_gives_same_tokens() {
    let input = "IF a1 >= 12.5 THEN /* note */ b ELSE c // tail\n d != 2e-3";
    let first = tokens_of(input, 16);
    let second = tokens_of(input, 16);
    assert!(first.is_ok());
    assert_eq!(first, second);
}

#[test]
fn small_buffers_give_the_tokens_of_one_large_window() {
    let input = "IF count >= 10 THEN\n  /* reset the\n counter */ count == 0 // done\nELSE x1 != 2.5e+3 ";
    let whole = tokens_of(input, 4096).unwrap();
    assert_eq!(whole.len(), 12);
    for capacity in [8usize, 9, 10, 13, 16, 31, 64] {
        assert_eq!(tokens_of(input, capacity).as_ref(), Ok(&whole), "capacity {}", capacity);
    }
}

#[test]
fn comments_may_span_buffers() {
    let input = "a // one two three four five six seven\nb /* one two three four five six */ c";
    let tokens = tokens_of(input, 6).unwrap();
    assert_eq!(
        shapes(&tokens),
        vec![word(Tag::Identifier, "a"), word(Tag::Identifier, "b"), word(Tag::Identifier, "c")]
    );
    assert_eq!(tokens[1].start, 39);
}

#[test]
fn stretch_without_white_space_overflows_small_buffers() {
    assert_eq!(
        tokens_of("ab abcdefgh x", 4),
        Err(ScanError::BufferOverflowToken { position: 3 })
    );
    let mut lexer = lexer_with(4, &[]);
    lexer.load("ab abcdefgh x");
    assert_eq!(lexer.scan().unwrap().text, "ab");
    assert_eq!(lexer.scan(), Err(ScanError::BufferOverflowToken { position: 3 }));
    assert_eq!(
        tokens_of("a<=b c", 3),
        Err(ScanError::BufferOverflowToken { position: 0 })
    );
    assert_eq!(tokens_of("abcd", 4).unwrap().len(), 1);
    assert_eq!(tokens_of("abcd", 1), Err(ScanError::BufferOverflowToken { position: 0 }));
}

#[test]
fn white_space_and_comments_are_invisible() {
    let spaced = tokens_of("a  \t\nb", 2048).unwrap();
    let plain = tokens_of("a b", 2048).unwrap();
    assert_eq!(shapes(&spaced), shapes(&plain));
    assert_eq!(
        shapes(&plain),
        vec![word(Tag::Identifier, "a"), word(Tag::Identifier, "b")]
    );
    let commented = tokens_of("a/* x */\r\n// y\nb", 2048).unwrap();
    assert_eq!(shapes(&commented), shapes(&plain));
}

#[test]
fn keywords_take_precedence_over_identifiers() {
    let tokens = tokens_of("IF x THEN y ELSE z", 2048).unwrap();
    assert_eq!(
        shapes(&tokens),
        vec![
            word(Tag::Keyword, "IF"),
            word(Tag::Identifier, "x"),
            word(Tag::Keyword, "THEN"),
            word(Tag::Identifier, "y"),
            word(Tag::Keyword, "ELSE"),
            word(Tag::Identifier, "z"),
        ]
    );
    let lower = tokens_of("if IFS", 2048).unwrap();
    assert_eq!(
        shapes(&lower),
        vec![word(Tag::Identifier, "if"), word(Tag::Identifier, "IFS")]
    );
}

#[test]
fn numbers_are_parsed() {
    let tokens = tokens_of("123 12.5 2e-3", 2048).unwrap();
    assert_eq!(tokens.len(), 3);
    assert!(tokens.iter().all(|t| t.kind == Tag::Number));
    assert_eq!(float_of(tokens[0].value), 123.0);
    assert_eq!(float_of(tokens[1].value), 12.5);
    assert_eq!(float_of(tokens[2].value), 0.002);
    assert_eq!(tokens[0].value, Some(Num::new(123)));
    assert_eq!(tokens[1].value, Some(Num::scaled(125, -1)));
    assert_eq!(tokens[2].value, Some(Num::scaled(2, -3)));
}

#[test]
fn number_takes_the_longest_well_formed_prefix() {
    let tokens = tokens_of("1.50E+2 7e 3.x", 2048);
    assert_eq!(tokens, Err(ScanError::UnexpectedCharacter { character: '.', position: 12 }));
    let tokens = tokens_of("1.50E+2 7e 3e+", 2048).unwrap_err();
    assert_eq!(tokens, ScanError::UnexpectedCharacter { character: '+', position: 13 });
    let tokens = tokens_of("1.50E+2 7e 04", 2048).unwrap();
    assert_eq!(
        shapes(&tokens),
        vec![
            word(Tag::Number, "1.50E+2"),
            word(Tag::Number, "7"),
            word(Tag::Identifier, "e"),
            word(Tag::Number, "04"),
        ]
    );
    assert_eq!(tokens[0].value, Some(Num::scaled(150, 0)));
    assert_eq!(tokens[3].value, Some(Num::new(4)));
}

#[test]
fn number_too_large_for_its_value_keeps_its_text() {
    let tokens = tokens_of("18446744073709551615 18446744073709551616 1e99999999999999999999", 2048)
        .unwrap();
    assert_eq!(tokens[0].value, Some(Num::new(u64::MAX)));
    assert_eq!(tokens[1].kind, Tag::Number);
    assert_eq!(tokens[1].text, "18446744073709551616");
    assert_eq!(tokens[1].value, None);
    assert_eq!(tokens[2].value, None);
    let edge = tokens_of("1e9223372036854775807 1e9223372036854775808 1e-9223372036854775808", 2048)
        .unwrap();
    assert_eq!(edge[0].value, Some(Num::scaled(1, i64::MAX)));
    assert_eq!(edge[1].value, None);
    assert_eq!(edge[2].value, Some(Num::scaled(1, i64::MIN)));
}

#[test]
fn relational_operators_match_maximally() {
    let tokens = tokens_of("<=", 2048).unwrap();
    assert_eq!(shapes(&tokens), vec![word(Tag::Relop, "<=")]);
    let tokens = tokens_of("<x", 2048).unwrap();
    assert_eq!(
        shapes(&tokens),
        vec![word(Tag::Relop, "<"), word(Tag::Identifier, "x")]
    );
    let tokens = tokens_of("< > <= >= == !=", 2048).unwrap();
    let texts: Vec<String> = tokens.iter().map(|t| t.text.clone()).collect();
    assert_eq!(texts, vec!["<", ">", "<=", ">=", "==", "!="]);
    assert!(tokens.iter().all(|t| t.kind == Tag::Relop && t.value.is_none()));
    assert_eq!(
        tokens_of("a ! b", 2048),
        Err(ScanError::UnexpectedCharacter { character: '!', position: 2 })
    );
}

#[test]
fn unterminated_block_comment_is_an_error() {
    assert_eq!(
        tokens_of("/* never closed", 2048),
        Err(ScanError::UnterminatedComment { start_position: 0 })
    );
    assert_eq!(
        tokens_of("123 234  hello\n now be //    asdasdfasd\nas\n let 23 /*vasya", 2048),
        Err(ScanError::UnterminatedComment { start_position: 51 })
    );
    assert_eq!(
        tokens_of("ab /* never closed", 8),
        Err(ScanError::UnterminatedComment { start_position: 3 })
    );
    assert_eq!(
        tokens_of("ab /* never closed", 4),
        Err(ScanError::BufferOverflowToken { position: 6 })
    );
    assert_eq!(tokens_of("a /* closed */", 2048).unwrap().len(), 1);
    assert_eq!(tokens_of("a // open to the end", 2048).unwrap().len(), 1);
    assert_eq!(
        tokens_of("/*/", 2048),
        Err(ScanError::UnterminatedComment { start_position: 0 })
    );
}

#[test]
fn unclassifiable_character_is_an_error() {
    assert_eq!(
        tokens_of("@", 2048),
        Err(ScanError::UnexpectedCharacter { character: '@', position: 0 })
    );
    assert_eq!(
        tokens_of("ab / c", 2048),
        Err(ScanError::UnexpectedCharacter { character: '/', position: 3 })
    );
    assert_eq!(
        tokens_of("x \0", 2048),
        Err(ScanError::UnexpectedCharacter { character: '\0', position: 2 })
    );
    let mut lexer = Lexer::new(Config::standard());
    lexer.load("a @");
    assert_eq!(lexer.scan().unwrap().text, "a");
    let error = lexer.scan().unwrap_err();
    assert_eq!(error, ScanError::UnexpectedCharacter { character: '@', position: 2 });
    assert_eq!(error.position(), 2);
    assert_eq!(error.message(), "Unexpected token");
    assert_eq!(lexer.scan(), Err(error));
}

#[test]
fn error_messages_name_the_failure() {
    assert_eq!(
        ScanError::UnterminatedComment { start_position: 4 }.message(),
        "Unclosed comment"
    );
    assert_eq!(ScanError::UnterminatedComment { start_position: 4 }.position(), 4);
    assert_eq!(
        ScanError::BufferOverflowToken { position: 9 }.message(),
        "Token longer than the buffer"
    );
    assert_eq!(ScanError::BufferOverflowToken { position: 9 }.position(), 9);
}

#[test]
fn standard_configuration_reserves_if_then_else() {
    let config = Config::standard();
    assert_eq!(config.buffer_capacity, 2048);
    assert_eq!(config.keyword_set, vec!["IF", "THEN", "ELSE"]);
    let config = Config::default();
    assert_eq!(config.buffer_capacity, 2048);
    assert_eq!(config.keyword_set, vec!["IF", "THEN", "ELSE"]);
}

#[test]
fn load_starts_over() {
    let mut lexer = Lexer::new(Config::standard());
    lexer.load("a b");
    assert_eq!(lexer.scan().unwrap().text, "a");
    lexer.load("c");
    let token = lexer.scan().unwrap();
    assert_eq!(token.text, "c");
    assert_eq!(token.start, 0);
}

#[test]
fn caller_may_step_over_an_unexpected_character() {
    let mut lexer = Lexer::new(Config::standard());
    assert!(!lexer.skip_character());
    lexer.load("a @ b");
    assert_eq!(lexer.scan().unwrap().text, "a");
    assert_eq!(
        lexer.scan(),
        Err(ScanError::UnexpectedCharacter { character: '@', position: 2 })
    );
    assert!(lexer.skip_character());
    let token = lexer.scan().unwrap();
    assert_eq!((token.text.as_str(), token.start), ("b", 4));
    assert!(lexer.scan().unwrap().is_end_of_stream());
    assert!(!lexer.skip_character());
}

#[test]
#[should_panic(expected = "Unclosed comment")]
fn scan_string_panic_test() {
    let mut l = Lexer::new(Config::standard());
    l.load("123 234  hello\n now be //    asdasdfasd\nas\n let 23 /*vasya");
    loop {
        match l.scan() {
            Ok(a) => {
                if a.is_end_of_stream() {
                    break;
                }
            }
            Err(error) => panic!("{}", error.message()),
        }
    }
}

#[test]
fn long_input_is_scanned_through_standard_buffers() {
    let line = "IF word123 <= 45.6e-7 THEN /* skip me */ x != y // rest of the line\n";
    let input = line.repeat(400);
    assert!(input.chars().count() > 10 * 2048);
    let standard = tokens_of(&input, 2048).unwrap();
    let whole = tokens_of(&input, input.len()).unwrap();
    assert_eq!(standard.len(), 8 * 400);
    assert_eq!(standard, whole);
    assert_eq!(standard[8].start, line.len());
    let mut lexer = Lexer::new(Config::standard());
    let lines = lexer.full_scan(&input).unwrap();
    assert_eq!(lines.len(), 401);
    assert_eq!(shapes(&lines[399]), shapes(&standard[..8]));
    assert!(lines[400].is_empty());
}
