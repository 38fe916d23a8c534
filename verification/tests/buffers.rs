use simply_lang::buffer::{BufferPair, SentinelBuffer, SENTINEL};
use simply_lang::classifier::{classify, classify_span};
use simply_lang::cursor::Cursor;
use simply_lang::grammar::{
    scan_exponent, scan_fraction, scan_identifier, scan_number, scan_relop, scan_run, skip_once,
    CharClass, Mode,
};
use simply_lang::keywords::KeywordTable;
use simply_lang::lines::count_newlines;
use simply_lang::number::parse_number;
use simply_lang::text::{chars_of, push_decimal, string_of_range};
use simply_lang::token::{Num, ScanError, Tag, Word};

fn chars(text: &str) -> Vec<char> {
    text.chars().collect()
}

#[test]
fn new_buffer_holds_only_sentinels() {
    let buffer = SentinelBuffer::new(4);
    assert_eq!(buffer.size(), 4);
    assert_eq!(buffer.len(), 0);
    for i in 0..4 {
        assert_eq!(buffer.get(i), SENTINEL);
    }
    assert!(buffer.window().is_empty());
}

#[test]
fn load_copies_until_full_or_exhausted() {
    let source = chars("hello world");
    let mut buffer = SentinelBuffer::new(4);
    assert_eq!(buffer.load(&source, 0), 4);
    assert_eq!(buffer.window(), &['h', 'e', 'l', 'l'][..]);
    assert_eq!(buffer.load(&source, 9), 2);
    assert_eq!(buffer.window(), &['l', 'd'][..]);
    assert_eq!(buffer.get(1), 'd');
    assert_eq!(buffer.get(2), SENTINEL);
    assert_eq!(buffer.get(3), SENTINEL);
    assert_eq!(buffer.load(&source, 11), 0);
    assert_eq!(buffer.len(), 0);
    assert_eq!(buffer.get(0), SENTINEL);
}

#[test]
fn truncate_puts_sentinels_behind_what_is_kept() {
    let source = chars("abcdef");
    let mut buffer = SentinelBuffer::new(6);
    buffer.load(&source, 0);
    buffer.truncate(2);
    assert_eq!(buffer.len(), 2);
    assert_eq!(buffer.window(), &['a', 'b'][..]);
    assert_eq!(buffer.get(2), SENTINEL);
    assert_eq!(buffer.get(5), SENTINEL);
    assert_eq!(buffer.size(), 6);
}

#[test]
fn rotation_cuts_chunks_after_white_space() {
    let source = chars("ab cd efgh");
    let mut pair = BufferPair::new(5);
    assert_eq!(pair.size(), 5);
    assert!(pair.active().window().is_empty());
    assert_eq!(pair.rotate_and_refill(&source, 0), Ok(3));
    assert_eq!(pair.active().window(), &['a', 'b', ' '][..]);
    assert_eq!(pair.active().get(3), SENTINEL);
    assert_eq!(pair.rotate_and_refill(&source, 3), Ok(6));
    assert_eq!(pair.active().window(), &['c', 'd', ' '][..]);
    assert_eq!(pair.inactive().window(), &['a', 'b', ' '][..]);
    assert_eq!(pair.rotate_and_refill(&source, 6), Ok(10));
    assert_eq!(pair.active().window(), &['e', 'f', 'g', 'h'][..]);
    assert_eq!(pair.rotate_and_refill(&source, 10), Ok(10));
    assert!(pair.active().window().is_empty());
}

#[test]
fn rotation_reports_a_stretch_that_fits_no_buffer() {
    let source = chars("abcdefgh i");
    let mut pair = BufferPair::new(5);
    pair.rotate_and_refill(&chars("xy"), 0).unwrap();
    assert_eq!(
        pair.rotate_and_refill(&source, 0),
        Err(ScanError::BufferOverflowToken { position: 0 })
    );
    assert_eq!(pair.active().window(), &['x', 'y'][..]);
    pair.clear();
    assert!(pair.active().window().is_empty());
}

#[test]
fn cursor_protocol() {
    let mut cursor = Cursor::new(8);
    assert_eq!((cursor.lexeme_begin(), cursor.forward()), (0, 0));
    cursor.advance_forward();
    cursor.advance_forward();
    assert_eq!((cursor.lexeme_begin(), cursor.forward()), (0, 2));
    cursor.advance_to(5);
    assert_eq!(cursor.commit(4), (0, 4));
    assert_eq!((cursor.lexeme_begin(), cursor.forward()), (4, 5));
    cursor.reset();
    assert_eq!((cursor.lexeme_begin(), cursor.forward()), (0, 0));
}

#[test]
fn runs_and_lexeme_ends() {
    let text = chars("123abc 4.5e-6x 7. 8e+ <= =");
    assert_eq!(scan_run(&text, 0, CharClass::Digit), 3);
    assert_eq!(scan_run(&text, 0, CharClass::LetterOrDigit), 6);
    assert_eq!(scan_run(&text, 6, CharClass::Digit), 6);
    assert_eq!(scan_run(&text, text.len(), CharClass::Digit), text.len());
    assert_eq!(scan_identifier(&text, 3), 6);
    assert_eq!(scan_number(&text, 0), 3);
    assert_eq!(scan_number(&text, 7), 13);
    assert_eq!(scan_fraction(&text, 8), 10);
    assert_eq!(scan_exponent(&text, 10), 13);
    assert_eq!(scan_number(&text, 15), 16);
    assert_eq!(scan_fraction(&text, 16), 16);
    assert_eq!(scan_number(&text, 18), 19);
    assert_eq!(scan_exponent(&text, 19), 19);
    assert_eq!(scan_relop(&text, 22), Some(24));
    assert_eq!(scan_relop(&text, 23), None);
    assert_eq!(scan_relop(&text, 25), None);
    assert_eq!(scan_relop(&text, text.len()), None);
    assert_eq!(scan_relop(&chars("<"), 0), Some(1));
}

#[test]
fn skipping_steps() {
    let text = chars(" //x\n/*y*/z/");
    assert_eq!(skip_once(&text, 0, 10, Mode::Normal), Some((1, Mode::Normal)));
    assert_eq!(skip_once(&text, 1, 10, Mode::Normal), Some((3, Mode::LineComment)));
    assert_eq!(skip_once(&text, 3, 10, Mode::LineComment), Some((4, Mode::LineComment)));
    assert_eq!(skip_once(&text, 4, 10, Mode::LineComment), Some((5, Mode::Normal)));
    assert_eq!(
        skip_once(&text, 5, 10, Mode::Normal),
        Some((7, Mode::BlockComment { start: 15 }))
    );
    assert_eq!(
        skip_once(&text, 7, 10, Mode::BlockComment { start: 15 }),
        Some((8, Mode::BlockComment { start: 15 }))
    );
    assert_eq!(skip_once(&text, 8, 10, Mode::BlockComment { start: 15 }), Some((10, Mode::Normal)));
    assert_eq!(skip_once(&text, 10, 10, Mode::Normal), None);
    assert_eq!(skip_once(&text, 11, 10, Mode::Normal), None);
}

#[test]
fn classification_in_a_window() {
    let mut keywords = KeywordTable::new();
    assert!(keywords.reserve(Word::new(Tag::Keyword, "IF".to_owned())));
    assert!(!keywords.reserve(Word::new(Tag::Identifier, "IF".to_owned())));
    assert_eq!(keywords.len(), 1);
    assert_eq!(keywords.lookup("IF"), Some(Tag::Keyword));
    assert_eq!(keywords.lookup("if"), None);
    let window = chars("IF x1 12.5 >= @");
    let (token, end) = classify_span(&window, 0, 100, &keywords);
    let token = token.unwrap();
    assert_eq!((token.kind, token.text.as_str(), token.value, token.start), (Tag::Keyword, "IF", None, 100));
    assert_eq!(end, 2);
    let token = classify(&window, 3, 100, &keywords).unwrap();
    assert_eq!((token.kind, token.text.as_str(), token.start), (Tag::Identifier, "x1", 103));
    let token = classify(&window, 6, 100, &keywords).unwrap();
    assert_eq!((token.kind, token.value, token.start), (Tag::Number, Some(Num::scaled(125, -1)), 106));
    let token = classify(&window, 11, 100, &keywords).unwrap();
    assert_eq!((token.kind, token.text.as_str()), (Tag::Relop, ">="));
    assert_eq!(
        classify(&window, 14, 100, &keywords),
        Err(ScanError::UnexpectedCharacter { character: '@', position: 114 })
    );
    assert_eq!(
        classify(&window, 2, 100, &keywords),
        Err(ScanError::UnexpectedCharacter { character: ' ', position: 102 })
    );
    let end = classify(&window, 15, 100, &keywords).unwrap();
    assert_eq!((end.kind, end.text.as_str(), end.start), (Tag::EndOfStream, "", 115));
}

#[test]
fn number_values() {
    assert_eq!(parse_number(&chars("123")), Some(Num::new(123)));
    assert_eq!(parse_number(&chars("0012.50")), Some(Num::scaled(1250, -2)));
    assert_eq!(parse_number(&chars("2e-3")), Some(Num::scaled(2, -3)));
    assert_eq!(parse_number(&chars("2E+3")), Some(Num::scaled(2, 3)));
    assert_eq!(parse_number(&chars("2e3")), Some(Num::scaled(2, 3)));
    assert_eq!(parse_number(&chars("1.5e1 and more")), Some(Num::scaled(15, 0)));
    assert_eq!(parse_number(&chars("")), Some(Num::new(0)));
    assert_eq!(parse_number(&chars("1844674407370955161.5")), Some(Num::scaled(u64::MAX, -1)));
    assert_eq!(parse_number(&chars("1844674407370955161.6")), None);
}

#[test]
fn text_conversions() {
    assert_eq!(chars_of("héllo"), vec!['h', 'é', 'l', 'l', 'o']);
    assert_eq!(chars_of(""), Vec::<char>::new());
    assert_eq!(string_of_range(&['a', 'ß', 'c'], 0, 3), "aßc");
    assert_eq!(string_of_range(&['a', 'b', 'c', 'd'], 1, 3), "bc");
    assert_eq!(string_of_range(&['a', 'b'], 2, 2), "");
    let mut text = String::from("n=");
    push_decimal(&mut text, 0);
    push_decimal(&mut text, 907);
    assert_eq!(text, "n=0907");
}

#[test]
fn line_feeds_are_counted() {
    let source = chars("a\nb\n\nc");
    assert_eq!(count_newlines(&source, 0, source.len()), 3);
    assert_eq!(count_newlines(&source, 2, 4), 1);
    assert_eq!(count_newlines(&source, 3, 3), 0);
}
