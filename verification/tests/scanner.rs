use lc_syntax::scanner::{
    digit, keyword, punctuation_token, whitespace, word_char, ScanError, Scanner, Token,
};

fn scan(source: &str) -> Vec<Token> {
    let mut scanner = Scanner::new(source.to_string(), 0);
    assert_eq!(scanner.scan(), Ok(()));
    scanner.tokens
}

fn word(text: &str) -> Token {
    Token::Identifier(text.to_string())
}

fn reserved(text: &str) -> Token {
    Token::Keyword(text.to_string())
}

#[test]
fn scans_a_declaration() {
    assert_eq!(
        scan("let x = 1 + 2"),
        vec![
            reserved("let"),
            word("x"),
            Token::OpAssign,
            Token::NumberLiteral(1),
            Token::OpAdd,
            Token::NumberLiteral(2),
        ]
    );
}

#[test]
fn white_space_gives_newlines_only() {
    assert_eq!(scan(""), vec![]);
    assert_eq!(scan("   \t \r"), vec![]);
    assert_eq!(scan(" \n\t\n "), vec![Token::OpNewline, Token::OpNewline]);
    assert_eq!(scan("\n\n\n"), vec![Token::OpNewline, Token::OpNewline, Token::OpNewline]);
    assert_eq!(scan("\u{A0}\u{2003}\n\u{3000}"), vec![Token::OpNewline]);
}

#[test]
fn newline_separates_tokens() {
    assert_eq!(
        scan("a\nb"),
        vec![word("a"), Token::OpNewline, word("b")]
    );
}

#[test]
fn white_space_is_what_std_calls_white_space() {
    let mut code: u32 = 0;
    while code <= 0x10FFFF {
        if let Some(c) = char::from_u32(code) {
            assert_eq!(whitespace(c), c.is_whitespace(), "U+{:04X}", code);
        }
        code += 1;
    }
}

#[test]
fn character_classes() {
    for c in ['a', 'z', 'A', 'Z', 'm', '_'] {
        assert!(word_char(c));
    }
    for c in ['0', '9', ' ', '-', '@', '[', '`', '{', 'é'] {
        assert!(!word_char(c));
    }
    for c in ['0', '5', '9'] {
        assert!(digit(c));
    }
    for c in ['/', ':', 'a', '٣'] {
        assert!(!digit(c));
    }
}

#[test]
fn numbers_are_read_in_decimal() {
    assert_eq!(scan("0"), vec![Token::NumberLiteral(0)]);
    assert_eq!(scan("7"), vec![Token::NumberLiteral(7)]);
    assert_eq!(scan("12345"), vec![Token::NumberLiteral(12345)]);
    assert_eq!(scan("007"), vec![Token::NumberLiteral(7)]);
    assert_eq!(scan("1234567890"), vec![Token::NumberLiteral(1234567890)]);
}

#[test]
fn every_numeral_scans_back_to_its_number() {
    let mut n: i64 = 0;
    while n < 3000 {
        assert_eq!(scan(&n.to_string()), vec![Token::NumberLiteral(n)]);
        n += 1;
    }
    for n in [i64::MAX, i64::MAX - 1, i64::MAX / 10, i64::MAX / 10 + 1, 1_000_000_007] {
        assert_eq!(scan(&n.to_string()), vec![Token::NumberLiteral(n)]);
    }
}

#[test]
fn largest_number_fits() {
    assert_eq!(scan("9223372036854775807"), vec![Token::NumberLiteral(i64::MAX)]);
    assert_eq!(
        scan("00000000000000000000009223372036854775807"),
        vec![Token::NumberLiteral(i64::MAX)]
    );
}

#[test]
fn number_too_large_is_an_error() {
    let mut scanner = Scanner::new("x 9223372036854775808 y".to_string(), 0);
    assert_eq!(scanner.scan(), Err(ScanError::NumberTooLarge { position: 2 }));
    assert_eq!(scanner.tokens, vec![word("x")]);
    assert_eq!(scanner.current, 2);

    let mut scanner = Scanner::new("99999999999999999999999".to_string(), 0);
    assert_eq!(scanner.scan(), Err(ScanError::NumberTooLarge { position: 0 }));
    assert_eq!(scanner.tokens, vec![]);
}

#[test]
fn number_method_reads_one_run() {
    let mut scanner = Scanner::new("ab 42cd".to_string(), 3);
    assert_eq!(scanner.number(), Ok(Token::NumberLiteral(42)));
    assert_eq!(scanner.current, 5);
    assert_eq!(scanner.tokens, vec![]);

    let mut scanner = Scanner::new("ab".to_string(), 0);
    assert_eq!(scanner.number(), Ok(Token::NumberLiteral(0)));
    assert_eq!(scanner.current, 0);
}

#[test]
fn digits_do_not_belong_to_identifiers() {
    assert_eq!(scan("abc123"), vec![word("abc"), Token::NumberLiteral(123)]);
    assert_eq!(scan("1x"), vec![Token::NumberLiteral(1), word("x")]);
}

#[test]
fn identifiers_hold_letters_and_underscores() {
    assert_eq!(scan("foo_bar"), vec![word("foo_bar")]);
    assert_eq!(scan("_tmp"), vec![word("_tmp")]);
    assert_eq!(scan("Let"), vec![word("Let")]);
    assert_eq!(scan("lets"), vec![word("lets")]);
    assert_eq!(scan("true"), vec![word("true")]);
}

#[test]
fn keywords_are_recognised() {
    for k in ["let", "mut", "pub", "fn", "struct", "enum", "from", "import", "or", "and"] {
        assert!(keyword(k));
        assert_eq!(scan(k), vec![reserved(k)]);
    }
    for k in ["", "le", "lett", "LET", "andor", "fnn", "structs", "imports"] {
        assert!(!keyword(k));
    }
}

#[test]
fn identifier_method_reads_one_run() {
    let mut scanner = Scanner::new("1 name+".to_string(), 2);
    assert_eq!(scanner.identifier(), word("name"));
    assert_eq!(scanner.current, 6);
    let mut scanner = Scanner::new("mut".to_string(), 0);
    assert_eq!(scanner.identifier(), reserved("mut"));
    assert_eq!(scanner.current, 3);
}

#[test]
fn single_characters() {
    assert_eq!(
        scan(".+-*/!%:;={}()[]><^|&,"),
        vec![
            Token::OpPeriod,
            Token::OpAdd,
            Token::OpSub,
            Token::OpMul,
            Token::OpDiv,
            Token::OpNot,
            Token::OpMod,
            Token::OpColon,
            Token::OpSemicolon,
            Token::OpAssign,
            Token::CurlyLeft,
            Token::CurlyRight,
            Token::ParenLeft,
            Token::ParenRight,
            Token::SquareLeft,
            Token::SquareRight,
            Token::OpMore,
            Token::OpLess,
            Token::BitwiseXor,
            Token::BitwiseOr,
            Token::BitwiseAnd,
            Token::OpComma,
        ]
    );
    assert_eq!(punctuation_token('+'), Some(Token::OpAdd));
    assert_eq!(punctuation_token('a'), None);
    assert_eq!(punctuation_token('"'), None);
}

#[test]
fn two_character_operators_are_two_tokens() {
    assert_eq!(scan("=="), vec![Token::OpAssign, Token::OpAssign]);
    assert_eq!(scan("<="), vec![Token::OpLess, Token::OpAssign]);
    assert_eq!(scan("!="), vec![Token::OpNot, Token::OpAssign]);
}

#[test]
fn string_literal_with_escaped_quote() {
    assert_eq!(scan("\"a\\\"b\""), vec![Token::StringLiteral("a\"b".to_string())]);
}

#[test]
fn string_literals() {
    assert_eq!(scan("\"\""), vec![Token::StringLiteral(String::new())]);
    assert_eq!(scan("\"hello world\""), vec![Token::StringLiteral("hello world".to_string())]);
    assert_eq!(
        scan("\"a\" \"b\""),
        vec![Token::StringLiteral("a".to_string()), Token::StringLiteral("b".to_string())]
    );
    assert_eq!(
        scan("\"x\\\"\" + 1"),
        vec![Token::StringLiteral("x\"".to_string()), Token::OpAdd, Token::NumberLiteral(1)]
    );
    assert_eq!(scan("\"let 1 # \n\""), vec![Token::StringLiteral("let 1 # \n".to_string())]);
}

#[test]
fn string_literal_inside_a_source() {
    assert_eq!(
        scan("let s = \"a\\\"b\" + \"c\"\nx"),
        vec![
            reserved("let"),
            word("s"),
            Token::OpAssign,
            Token::StringLiteral("a\"b".to_string()),
            Token::OpAdd,
            Token::StringLiteral("c".to_string()),
            Token::OpNewline,
            word("x"),
        ]
    );
}

#[test]
fn other_escapes_drop_the_backslash() {
    assert_eq!(scan("\"a\\nb\""), vec![Token::StringLiteral("anb".to_string())]);
    assert_eq!(scan("\"a\\\\b\""), vec![Token::StringLiteral("a\\b".to_string())]);
    assert_eq!(scan("\"\\\\\""), vec![Token::StringLiteral("\\".to_string())]);
    assert_eq!(
        scan("\"\\\\\"x"),
        vec![Token::StringLiteral("\\".to_string()), word("x")]
    );
}

#[test]
fn escaping_round_trip() {
    for text in ["", "plain", "a\"b", "\\", "\"\"", "\\\"", "tab\there", "q\"\\\"q", "é\"ü"] {
        let mut literal = String::from("\"");
        for c in text.chars() {
            if c == '"' || c == '\\' {
                literal.push('\\');
            }
            literal.push(c);
        }
        literal.push('"');
        assert_eq!(scan(&literal), vec![Token::StringLiteral(text.to_string())]);
    }
}

#[test]
fn unterminated_string_runs_to_the_end() {
    assert_eq!(scan("\"abc"), vec![Token::StringLiteral("abc".to_string())]);
    assert_eq!(scan("\""), vec![Token::StringLiteral(String::new())]);
    assert_eq!(scan("\"abc\\"), vec![Token::StringLiteral("abc".to_string())]);
    let mut scanner = Scanner::new("x \"ab".to_string(), 0);
    assert_eq!(scanner.scan(), Ok(()));
    assert_eq!(scanner.current, 5);
}

#[test]
fn string_method_reads_one_literal() {
    let mut scanner = Scanner::new("\"ab\"cd".to_string(), 0);
    assert_eq!(scanner.string(), Token::StringLiteral("ab".to_string()));
    assert_eq!(scanner.current, 4);
}

#[test]
fn unknown_character_is_an_error() {
    let mut scanner = Scanner::new("let x = #".to_string(), 0);
    assert_eq!(
        scanner.scan(),
        Err(ScanError::UnknownCharacter { character: '#', position: 8 })
    );
    assert_eq!(scanner.tokens, vec![reserved("let"), word("x"), Token::OpAssign]);
    assert_eq!(scanner.current, 8);

    for c in ['#', '@', '$', '\'', '~', '`', '?', '\\', 'é', '\u{0}'] {
        let mut scanner = Scanner::new(c.to_string(), 0);
        assert_eq!(
            scanner.scan(),
            Err(ScanError::UnknownCharacter { character: c, position: 0 })
        );
    }
}

#[test]
fn positions_count_characters() {
    let mut scanner = Scanner::new("\"é\" é".to_string(), 0);
    assert_eq!(
        scanner.scan(),
        Err(ScanError::UnknownCharacter { character: 'é', position: 4 })
    );
    assert_eq!(scanner.tokens, vec![Token::StringLiteral("é".to_string())]);
}

#[test]
fn scanning_twice_gives_the_same_tokens() {
    for source in ["let x = 1 + 2", "a\n\"b\\\"c\" (1,2) % 3", "", "let mut { a, mut b } = c"] {
        assert_eq!(scan(source), scan(source));
    }
    let mut first = Scanner::new("1 + #".to_string(), 0);
    let mut second = Scanner::new("1 + #".to_string(), 0);
    assert_eq!(first.scan(), second.scan());
    assert_eq!(first.tokens, second.tokens);
    assert_eq!(first.current, second.current);
}

#[test]
fn scanning_starts_at_the_cursor() {
    let mut scanner = Scanner::new("let x = 1".to_string(), 4);
    assert_eq!(scanner.scan(), Ok(()));
    assert_eq!(scanner.tokens, vec![word("x"), Token::OpAssign, Token::NumberLiteral(1)]);
    assert_eq!(scanner.current, 9);

    let mut scanner = Scanner::new("abc".to_string(), 10);
    assert_eq!(scanner.scan(), Ok(()));
    assert_eq!(scanner.tokens, vec![]);
    assert_eq!(scanner.current, 10);
}

#[test]
fn scanning_appends_to_the_tokens() {
    let mut scanner = Scanner::new("b".to_string(), 0);
    scanner.tokens.push(word("a"));
    assert_eq!(scanner.scan(), Ok(()));
    assert_eq!(scanner.tokens, vec![word("a"), word("b")]);
}

#[test]
fn cursor_moves_by_characters() {
    let mut scanner = Scanner::new("aé".to_string(), 0);
    assert_eq!(scanner.get_current(), Some('a'));
    assert_eq!(scanner.advance(), Some('é'));
    assert_eq!(scanner.get_current(), Some('é'));
    assert_eq!(scanner.advance(), None);
    assert_eq!(scanner.current, 2);
    assert_eq!(scanner.advance(), None);
    assert_eq!(scanner.current, 3);
    assert_eq!(scanner.get_current(), None);
    assert_eq!(scanner.source, vec!['a', 'é']);
    assert_eq!(scanner.scan(), Ok(()));
    assert_eq!(scanner.tokens, vec![]);
    assert_eq!(scanner.current, 3);
}

#[test]
fn tokens_compare_by_kind_and_payload() {
    assert_eq!(word("a"), word("a"));
    assert_ne!(word("a"), word("b"));
    assert_ne!(word("let"), reserved("let"));
    assert_ne!(Token::NumberLiteral(1), Token::NumberLiteral(2));
    assert_ne!(Token::OpAdd, Token::OpSub);
    assert_ne!(Token::StringLiteral("a".to_string()), word("a"));
    assert_eq!(Token::BooleanLiteral(true), Token::BooleanLiteral(true));
    assert_ne!(Token::BooleanLiteral(true), Token::BooleanLiteral(false));
    assert_eq!(Token::End, Token::End);
    assert_eq!(word("a").clone(), word("a"));
    assert_eq!(Token::OpMod.clone(), Token::OpMod);
}

#[test]
fn tokens_are_written_as_debug_writes_them() {
    let tokens = vec![
        Token::StringLiteral("a\"b\\c\n\t'é\u{7f}\u{301}".to_string()),
        Token::StringLiteral(String::new()),
        Token::NumberLiteral(0),
        Token::NumberLiteral(42),
        Token::NumberLiteral(-42),
        Token::NumberLiteral(i64::MAX),
        Token::NumberLiteral(i64::MIN),
        Token::BooleanLiteral(true),
        Token::BooleanLiteral(false),
        Token::BuiltinFn("print".to_string()),
        reserved("let"),
        word("x"),
        Token::ParenLeft,
        Token::ParenRight,
        Token::CurlyLeft,
        Token::CurlyRight,
        Token::SquareLeft,
        Token::SquareRight,
        Token::OpAdd,
        Token::OpSub,
        Token::OpDiv,
        Token::OpMul,
        Token::OpAssign,
        Token::OpEq,
        Token::OpUneq,
        Token::OpLess,
        Token::OpMore,
        Token::OpLessEq,
        Token::OpMoreEq,
        Token::OpNot,
        Token::OpSemicolon,
        Token::OpColon,
        Token::OpMod,
        Token::BitwiseXor,
        Token::BitwiseAnd,
        Token::BitwiseOr,
        Token::OpPeriod,
        Token::OpNewline,
        Token::OpComma,
        Token::End,
    ];
    for token in tokens {
        let mut written = String::from("> ");
        token.push_debug(&mut written);
        assert_eq!(written, format!("> {:?}", token));
    }
    assert_eq!(word("x").kind(), "Identifier");
    assert_eq!(Token::End.kind(), "End");
}
