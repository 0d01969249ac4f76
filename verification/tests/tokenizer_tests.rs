use llvm_compiler::tokenizer::stream::{FileLocation, Stream};
use llvm_compiler::tokenizer::token::Token;
use llvm_compiler::tokenizer::tokenize::tokenize;

fn data(tokens: &[Token]) -> Vec<String> {
    tokens.iter().map(|t| t.data.clone()).collect()
}

#[test]
fn tokenize_function_header_and_body() {
    let tokens = tokenize("i32 main() { return 0; }".to_string(), "main.pc".to_string());
    assert_eq!(data(&tokens), vec!["i32", "main", "(", ")", "{", "return", "0", ";", "}"]);
    assert_eq!(tokens[0].location.row, 1);
    assert_eq!(tokens[0].location.col, 1);
    assert_eq!(tokens[0].location.name, "main.pc");
}

#[test]
fn tokenize_compound_operators() {
    let tokens = tokenize("a+=b<<=c->d!=e".to_string(), "f".to_string());
    assert_eq!(data(&tokens), vec!["a", "+=", "b", "<<=", "c", "->", "d", "!=", "e"]);
}

#[test]
fn tokenize_skips_comments() {
    let tokens = tokenize("x /* gone */ y // also gone\nz".to_string(), "f".to_string());
    assert_eq!(data(&tokens), vec!["x", "y", "z"]);
}

#[test]
fn tokenize_empty_input() {
    assert!(tokenize(String::new(), "f".to_string()).is_empty());
}

#[test]
fn token_text_uses_debug_form() {
    let t = Token::new(FileLocation::from_name("main.pc"), "i32".to_string());
    assert_eq!(t.render(), "\"i32\"\t\tLine 1:1 in file 'main.pc'");
    let q = Token::new(FileLocation::from_name("f"), "a\"b\n".to_string());
    assert_eq!(q.render(), "\"a\\\"b\\n\"\tLine 1:1 in file 'f'");
    let w = Token::new(FileLocation::from_name("f"), "abcdefgh".to_string());
    assert_eq!(w.render(), "\"abcdefgh\"\tLine 1:1 in file 'f'");
}

#[test]
fn location_moves_over_lines() {
    let mut l = FileLocation::new();
    assert_eq!(l.render(), "Line 1:1 in file '[unknown]'");
    l.consume_char('a');
    assert_eq!((l.row, l.col), (1, 2));
    l.consume_char('\n');
    assert_eq!((l.row, l.col), (2, 1));
}

#[test]
fn stream_reads_characters_in_order() {
    let mut s = Stream::new("ab".to_string(), "f".to_string());
    assert_eq!(s.current().unwrap().0, 'a');
    assert_eq!(s.peek().unwrap().0, 'b');
    assert!(s.check_next('b'));
    assert!(s.consume());
    assert_eq!(s.current().unwrap().0, 'b');
    assert!(s.peek().is_none());
    assert!(!s.consume());
    assert!(s.current().is_none());
}

#[test]
fn token_line_from_debug_text() {
    let loc = FileLocation::from_name("f");
    assert_eq!(Token::line_from_debug_text("\"ab\"".to_string(), &loc), "\"ab\"\t\tLine 1:1 in file 'f'");
    assert_eq!(Token::line_from_debug_text("\"abcdef\"".to_string(), &loc), "\"abcdef\"\tLine 1:1 in file 'f'");
    assert_eq!(Token::line_from_debug_text("\"é\"".to_string(), &loc), "\"é\"\t\tLine 1:1 in file 'f'");
}
