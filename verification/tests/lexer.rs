use topaz::scanner::{numerals, Scanner};
use topaz::token::{Token, TokenType};

fn scan(source: &str) -> Vec<Token> {
    Scanner::new(String::from(source)).scan_all()
}

fn kinds(source: &str) -> Vec<TokenType> {
    scan(source).into_iter().map(|token| token.token_type).collect()
}

fn slice(source: &str, token: &Token) -> String {
    source.chars().skip(token.col).take(token.len).collect()
}

fn identifier(name: &str) -> TokenType {
    TokenType::Identifier(String::from(name))
}

fn number(digits: &str) -> TokenType {
    TokenType::Number(String::from(digits))
}

fn string(contents: &str) -> TokenType {
    TokenType::String(String::from(contents))
}

#[test]
fn empty_source_returns_empty_vector_of_tokens() {
    let mut scanner = Scanner::new(String::from(""));
    assert_eq!(scanner.scan_all().len(), 0);
}

#[test]
fn scans_keyword_return() {
    let mut scanner = Scanner::new(String::from("return"));
    let tokens = scanner.scan_all();
    assert_eq!(tokens.len(), 1);
    assert_eq!(tokens[0], Token::new(TokenType::Return, 1, 0, 6));
}

#[test]
fn scans_list_of_keywords() {
    let mut scanner = Scanner::new(String::from("nil if fn"));
    let tokens = scanner.scan_all();
    assert_eq!(tokens.len(), 3);
    assert_eq!(tokens[0], Token::new(TokenType::Nil, 1, 0, 3));
    assert_eq!(tokens[1], Token::new(TokenType::If, 1, 4, 2));
    assert_eq!(tokens[2], Token::new(TokenType::Fn, 1, 7, 2));
}

#[test]
fn ignores_whitespace() {
    let mut scanner = Scanner::new(String::from("  \tnil"));
    let tokens = scanner.scan_all();
    assert_eq!(tokens.len(), 1);
    assert_eq!(tokens[0], Token::new(TokenType::Nil, 1, 3, 3));
}

#[test]
fn finds_string() {
    let mut scanner = Scanner::new(String::from("'hello world'"));
    let tokens = scanner.scan_all();
    assert_eq!(tokens.len(), 1);
    assert_eq!(
        tokens[0],
        Token::new(TokenType::String(String::from("hello world")), 1, 0, 13)
    );
}

#[test]
fn next_hands_out_one_token_at_a_time() {
    let mut scanner = Scanner::new(String::from("a + 1"));
    assert_eq!(scanner.next(), Some(Token::new(identifier("a"), 1, 0, 1)));
    assert!(!scanner.eof());
    assert_eq!(scanner.next(), Some(Token::new(TokenType::Plus, 1, 2, 1)));
    assert_eq!(scanner.next(), Some(Token::new(number("1"), 1, 4, 1)));
    assert!(scanner.eof());
    assert_eq!(scanner.next(), None);
    assert_eq!(scanner.next(), None);
}

#[test]
fn scans_punctuation() {
    assert_eq!(
        kinds("(){};,.-+/*%"),
        vec![
            TokenType::LeftParen,
            TokenType::RightParen,
            TokenType::LeftBrace,
            TokenType::RightBrace,
            TokenType::Semicolon,
            TokenType::Comma,
            TokenType::Dot,
            TokenType::Minus,
            TokenType::Plus,
            TokenType::Slash,
            TokenType::Star,
            TokenType::Mod,
        ]
    );
}

#[test]
fn looks_one_character_ahead() {
    assert_eq!(
        kinds("! != = == < <= > >= & && | ||"),
        vec![
            TokenType::Bang,
            TokenType::BangEqual,
            TokenType::Equal,
            TokenType::EqualEqual,
            TokenType::Less,
            TokenType::LessEqual,
            TokenType::Greater,
            TokenType::GreaterEqual,
            TokenType::BitwiseAnd,
            TokenType::LogicalAnd,
            TokenType::BitwiseOr,
            TokenType::LogicalOr,
        ]
    );
    assert_eq!(kinds("==="), vec![TokenType::EqualEqual, TokenType::Equal]);
    assert_eq!(kinds("!=="), vec![TokenType::BangEqual, TokenType::Equal]);
    assert_eq!(kinds("&&&"), vec![TokenType::LogicalAnd, TokenType::BitwiseAnd]);
    assert_eq!(kinds("<>"), vec![TokenType::Less, TokenType::Greater]);
    assert_eq!(kinds("!"), vec![TokenType::Bang]);
    assert_eq!(kinds("|"), vec![TokenType::BitwiseOr]);
}

#[test]
fn scans_every_keyword() {
    assert_eq!(
        kinds("and class else false for fn if nil or print return super this true var while"),
        vec![
            TokenType::And,
            TokenType::Class,
            TokenType::Else,
            TokenType::False,
            TokenType::For,
            TokenType::Fn,
            TokenType::If,
            TokenType::Nil,
            TokenType::Or,
            TokenType::Print,
            TokenType::Return,
            TokenType::Super,
            TokenType::This,
            TokenType::True,
            TokenType::Var,
            TokenType::While,
        ]
    );
}

#[test]
fn identifiers_take_the_longest_match() {
    assert_eq!(
        kinds("iffy nilx _x x_1 If printer fn2 a1b2"),
        vec![
            identifier("iffy"),
            identifier("nilx"),
            identifier("_x"),
            identifier("x_1"),
            identifier("If"),
            identifier("printer"),
            identifier("fn2"),
            identifier("a1b2"),
        ]
    );
}

#[test]
fn numbers_take_the_longest_match() {
    assert_eq!(kinds("12"), vec![number("12")]);
    assert_eq!(kinds("1.25"), vec![number("1.25")]);
    assert_eq!(kinds("007"), vec![number("007")]);
    assert_eq!(kinds("1."), vec![number("1"), TokenType::Dot]);
    assert_eq!(kinds("1.x"), vec![number("1"), TokenType::Dot, identifier("x")]);
    assert_eq!(kinds(".5"), vec![TokenType::Dot, number("5")]);
    assert_eq!(kinds("1.2.3"), vec![number("1.2"), TokenType::Dot, number("3")]);
    assert_eq!(kinds("1a"), vec![number("1"), identifier("a")]);
    assert_eq!(kinds("-3"), vec![TokenType::Minus, number("3")]);
}

#[test]
fn skips_comments() {
    assert_eq!(kinds("# nothing here"), vec![]);
    assert_eq!(kinds("#"), vec![]);
    assert_eq!(kinds("1 # one\n2"), vec![number("1"), number("2")]);
    assert_eq!(kinds("# 'not a string\nnil"), vec![TokenType::Nil]);
    let tokens = scan("a # b\n# c\n\n d");
    assert_eq!(tokens.len(), 2);
    assert_eq!(tokens[0], Token::new(identifier("a"), 1, 0, 1));
    assert_eq!(tokens[1], Token::new(identifier("d"), 4, 12, 1));
}

#[test]
fn counts_lines() {
    let tokens = scan("a\nb\r\n\n  c");
    assert_eq!(tokens[0], Token::new(identifier("a"), 1, 0, 1));
    assert_eq!(tokens[1], Token::new(identifier("b"), 2, 2, 1));
    assert_eq!(tokens[2], Token::new(identifier("c"), 4, 8, 1));
}

#[test]
fn a_string_may_hold_anything_but_a_quote() {
    assert_eq!(kinds("''"), vec![string("")]);
    assert_eq!(kinds("'a # b'"), vec![string("a # b")]);
    assert_eq!(kinds("'1 + 2'"), vec![string("1 + 2")]);
    assert_eq!(kinds("'a''b'"), vec![string("a"), string("b")]);
    assert_eq!(kinds("'\"'"), vec![string("\"")]);
}

#[test]
fn a_string_over_several_lines_is_on_its_last_line() {
    let source = "'one\ntwo' x";
    let tokens = scan(source);
    assert_eq!(tokens[0], Token::new(string("one\ntwo"), 2, 0, 9));
    assert_eq!(tokens[1], Token::new(identifier("x"), 2, 10, 1));
    assert_eq!(slice(source, &tokens[0]), "'one\ntwo'");
}

#[test]
fn an_unterminated_string_is_an_error_token() {
    let tokens = scan("x 'abc");
    assert_eq!(tokens.len(), 2);
    assert_eq!(
        tokens[1],
        Token::new(TokenType::Error(String::from("Unterminated string")), 1, 2, 19)
    );
    let tokens = scan("'");
    assert_eq!(
        tokens,
        vec![Token::new(TokenType::Error(String::from("Unterminated string")), 1, 0, 19)]
    );
    let tokens = scan("'a\nb");
    assert_eq!(
        tokens,
        vec![Token::new(TokenType::Error(String::from("Unterminated string")), 2, 0, 19)]
    );
}

#[test]
fn an_unexpected_character_is_an_error_token() {
    let tokens = scan("a @ b");
    assert_eq!(tokens.len(), 3);
    assert_eq!(
        tokens[1],
        Token::new(TokenType::Error(String::from("Unexpected character")), 1, 2, 20)
    );
    assert_eq!(tokens[2], Token::new(identifier("b"), 1, 4, 1));
    assert_eq!(kinds("\"")[0], TokenType::Error(String::from("Unexpected character")));
    assert_eq!(kinds("é")[0], TokenType::Error(String::from("Unexpected character")));
}

#[test]
fn characters_of_several_bytes_count_once() {
    let source = "'héllo wörld' x # ünïcode\n'日本語' y";
    let tokens = scan(source);
    assert_eq!(tokens.len(), 4);
    assert_eq!(tokens[0], Token::new(string("héllo wörld"), 1, 0, 13));
    assert_eq!(tokens[1], Token::new(identifier("x"), 1, 14, 1));
    assert_eq!(tokens[2], Token::new(string("日本語"), 2, 26, 5));
    assert_eq!(tokens[3], Token::new(identifier("y"), 2, 32, 1));
    assert_eq!(slice(source, &tokens[0]), "'héllo wörld'");
    assert_eq!(slice(source, &tokens[2]), "'日本語'");
}

#[test]
fn positions_give_the_lexemes_back() {
    let source = "x = 10;\nif (x >= 5.5) {\n  print 'big' + name_1; # done\n} else { y = !x != nil && true }\n";
    let tokens = scan(source);
    let lexemes: Vec<String> = tokens.iter().map(|token| slice(source, token)).collect();
    assert_eq!(
        lexemes,
        vec![
            "x", "=", "10", ";", "if", "(", "x", ">=", "5.5", ")", "{", "print", "'big'", "+",
            "name_1", ";", "}", "else", "{", "y", "=", "!", "x", "!=", "nil", "&&", "true", "}",
        ]
    );
    let chars: Vec<char> = source.chars().collect();
    let mut end = 0;
    for token in &tokens {
        assert!(token.col >= end);
        end = token.col + token.len;
        assert!(end <= chars.len());
        let line = 1 + chars[..end].iter().filter(|c| **c == '\n').count();
        assert_eq!(token.line, line);
    }
}

#[test]
fn scan_all_goes_on_from_where_next_stopped() {
    let mut scanner = Scanner::new(String::from("1 2 3"));
    assert_eq!(scanner.next(), Some(Token::new(number("1"), 1, 0, 1)));
    let rest = scanner.scan_all();
    assert_eq!(rest, vec![Token::new(number("2"), 1, 2, 1), Token::new(number("3"), 1, 4, 1)]);
    assert!(scanner.scan_all().is_empty());
}

#[test]
fn numerals_are_the_number_literals_in_order() {
    assert_eq!(numerals(String::from("")), Vec::<String>::new());
    assert_eq!(numerals(String::from("print 'none';")), Vec::<String>::new());
    assert_eq!(
        numerals(String::from("x = 1.5 + 20 * (3 - x1) # 4\n'5' 6.")),
        vec!["1.5", "20", "3", "6"]
    );
}
