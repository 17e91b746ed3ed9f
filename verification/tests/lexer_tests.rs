use sysy::lexer::{tokenize, Scanner, Token, TokenKind};

fn shape(tokens: &[Token]) -> Vec<(TokenKind, String, usize, usize)> {
    tokens
        .iter()
        .map(|t| (t.kind, t.lexeme.clone(), t.line, t.column))
        .collect()
}

fn tok(kind: TokenKind, lexeme: &str, line: usize, column: usize) -> (TokenKind, String, usize, usize) {
    (kind, lexeme.to_string(), line, column)
}

#[test]
fn tokenize_declaration() {
    let tokens = tokenize("int a = 10;");
    assert_eq!(
        shape(&tokens),
        vec![
            tok(TokenKind::Keyword, "int", 1, 1),
            tok(TokenKind::Ident, "a", 1, 5),
            tok(TokenKind::Assign, "=", 1, 7),
            tok(TokenKind::IntLiteral, "10", 1, 9),
            tok(TokenKind::Semicolon, ";", 1, 11),
            tok(TokenKind::Eof, "", 1, 12),
        ]
    );
}

#[test]
fn tokenize_empty_source_is_only_eof() {
    let tokens = tokenize("");
    assert_eq!(shape(&tokens), vec![tok(TokenKind::Eof, "", 1, 1)]);
}

#[test]
fn tokenize_two_character_operators() {
    let tokens = tokenize("a<=b==c!=d&&e||!f++--");
    assert_eq!(
        shape(&tokens),
        vec![
            tok(TokenKind::Ident, "a", 1, 1),
            tok(TokenKind::Le, "<=", 1, 2),
            tok(TokenKind::Ident, "b", 1, 4),
            tok(TokenKind::Eq, "==", 1, 5),
            tok(TokenKind::Ident, "c", 1, 7),
            tok(TokenKind::Neq, "!=", 1, 8),
            tok(TokenKind::Ident, "d", 1, 10),
            tok(TokenKind::And, "&&", 1, 11),
            tok(TokenKind::Ident, "e", 1, 13),
            tok(TokenKind::Or, "||", 1, 14),
            tok(TokenKind::Not, "!", 1, 16),
            tok(TokenKind::Ident, "f", 1, 17),
            tok(TokenKind::Inc, "++", 1, 18),
            tok(TokenKind::Dec, "--", 1, 20),
            tok(TokenKind::Eof, "", 1, 22),
        ]
    );
}

#[test]
fn tokenize_single_character_symbols() {
    let tokens = tokenize("+-*/%=<>!;,()[]{}");
    let kinds: Vec<TokenKind> = tokens.iter().map(|t| t.kind).collect();
    assert_eq!(
        kinds,
        vec![
            TokenKind::Plus,
            TokenKind::Minus,
            TokenKind::Star,
            TokenKind::Slash,
            TokenKind::Percent,
            TokenKind::Assign,
            TokenKind::Lt,
            TokenKind::Gt,
            TokenKind::Not,
            TokenKind::Semicolon,
            TokenKind::Comma,
            TokenKind::LParen,
            TokenKind::RParen,
            TokenKind::LBracket,
            TokenKind::RBracket,
            TokenKind::LBrace,
            TokenKind::RBrace,
            TokenKind::Eof,
        ]
    );
}

#[test]
fn tokenize_numbers() {
    let tokens = tokenize("1.5 .5 3e10 2E-3 7. 12 1e");
    assert_eq!(
        shape(&tokens),
        vec![
            tok(TokenKind::FloatLiteral, "1.5", 1, 1),
            tok(TokenKind::FloatLiteral, ".5", 1, 5),
            tok(TokenKind::FloatLiteral, "3e10", 1, 8),
            tok(TokenKind::FloatLiteral, "2E-3", 1, 13),
            tok(TokenKind::FloatLiteral, "7.", 1, 18),
            tok(TokenKind::IntLiteral, "12", 1, 21),
            tok(TokenKind::FloatLiteral, "1e", 1, 24),
            tok(TokenKind::Eof, "", 1, 26),
        ]
    );
}

#[test]
fn tokenize_keywords_and_identifiers() {
    let tokens = tokenize("int integer const _x if9 while float void return break continue else for");
    let kinds: Vec<(TokenKind, String)> = tokens.iter().map(|t| (t.kind, t.lexeme.clone())).collect();
    assert_eq!(
        kinds,
        vec![
            (TokenKind::Keyword, "int".to_string()),
            (TokenKind::Ident, "integer".to_string()),
            (TokenKind::Keyword, "const".to_string()),
            (TokenKind::Ident, "_x".to_string()),
            (TokenKind::Ident, "if9".to_string()),
            (TokenKind::Keyword, "while".to_string()),
            (TokenKind::Keyword, "float".to_string()),
            (TokenKind::Keyword, "void".to_string()),
            (TokenKind::Keyword, "return".to_string()),
            (TokenKind::Keyword, "break".to_string()),
            (TokenKind::Keyword, "continue".to_string()),
            (TokenKind::Keyword, "else".to_string()),
            (TokenKind::Keyword, "for".to_string()),
            (TokenKind::Eof, "".to_string()),
        ]
    );
}

#[test]
fn tokenize_comments_and_line_tracking() {
    let tokens = tokenize("// c\nint /* x\ny */ b");
    assert_eq!(
        shape(&tokens),
        vec![
            tok(TokenKind::Keyword, "int", 2, 1),
            tok(TokenKind::Ident, "b", 3, 6),
            tok(TokenKind::Eof, "", 3, 7),
        ]
    );
}

#[test]
fn tokenize_unterminated_block_comment() {
    let tokens = tokenize("a /* b");
    assert_eq!(shape(&tokens), vec![tok(TokenKind::Ident, "a", 1, 1), tok(TokenKind::Eof, "", 1, 7)]);
}

#[test]
fn tokenize_unknown_characters() {
    let tokens = tokenize("a & b | @");
    assert_eq!(
        shape(&tokens),
        vec![
            tok(TokenKind::Ident, "a", 1, 1),
            tok(TokenKind::Unknown, "&", 1, 3),
            tok(TokenKind::Ident, "b", 1, 5),
            tok(TokenKind::Unknown, "|", 1, 7),
            tok(TokenKind::Unknown, "@", 1, 9),
            tok(TokenKind::Eof, "", 1, 10),
        ]
    );
}

#[test]
fn tokenize_non_ascii_bytes_become_replacement_characters() {
    let tokens = tokenize("\u{e9}");
    assert_eq!(
        shape(&tokens),
        vec![
            tok(TokenKind::Unknown, "\u{FFFD}", 1, 1),
            tok(TokenKind::Unknown, "\u{FFFD}", 1, 2),
            tok(TokenKind::Eof, "", 1, 3),
        ]
    );
}

#[test]
fn scanner_keeps_returning_eof() {
    let mut scanner = Scanner::new("x");
    let first = scanner.next_token();
    assert_eq!(first.kind, TokenKind::Ident);
    assert_eq!(first.lexeme, "x");
    let second = scanner.next_token();
    assert_eq!(second.kind, TokenKind::Eof);
    assert_eq!(second.lexeme, "");
    assert_eq!((second.line, second.column), (1, 2));
    let third = scanner.next_token();
    assert_eq!(third.kind, TokenKind::Eof);
    assert_eq!(third.lexeme, "");
    assert_eq!((third.line, third.column), (1, 2));
}

#[test]
fn token_stream_ends_with_exactly_one_eof() {
    let src = "int main() {\n  float x = 1.5e3; // done\n  return x > 2 ? 1 : 0;\n}\n";
    let tokens = tokenize(src);
    let eofs = tokens.iter().filter(|t| t.kind == TokenKind::Eof).count();
    assert_eq!(eofs, 1);
    assert_eq!(tokens.last().unwrap().kind, TokenKind::Eof);
    for t in &tokens[..tokens.len() - 1] {
        assert!(!t.lexeme.is_empty());
    }
    for pair in tokens.windows(2) {
        assert!((pair[0].line, pair[0].column) < (pair[1].line, pair[1].column));
    }
}
