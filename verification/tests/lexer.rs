use compyler::{Error, Lexer, Token, TokenKind};

fn lex(text: &str) -> Result<Vec<Token>, Error> {
    Lexer::new(text).lex()
}

fn token(kind: TokenKind, lexeme: &str) -> Token {
    Token { kind, lexeme: lexeme.to_owned() }
}

fn with_eof(mut tokens: Vec<Token>) -> Vec<Token> {
    tokens.push(token(TokenKind::Eof, ""));
    tokens
}

fn count(tokens: &[Token], kind: TokenKind) -> usize {
    tokens.iter().filter(|t| t.kind == kind).count()
}

#[test]
fn empty_string() {
    let tokens = lex("").unwrap();
    assert_eq!(tokens, with_eof(vec![]));
}

#[test]
fn illegal_char() {
    let error = lex("😎").unwrap_err();
    assert_eq!(error, Error::UnexpectedStartOfToken('😎'));
}

#[test]
fn lowercase_identifier() {
    let tokens = lex("hi").unwrap();
    assert_eq!(tokens, with_eof(vec![token(TokenKind::Identifier, "hi")]));
}

#[test]
fn if_keyword() {
    let tokens = lex("if").unwrap();
    assert_eq!(tokens, with_eof(vec![token(TokenKind::If, "if")]));
}

#[test]
fn decimal_integer() {
    let tokens = lex("1234").unwrap();
    assert_eq!(tokens, with_eof(vec![token(TokenKind::Integer, "1234")]));
}

#[test]
fn comment() {
    let tokens = lex("#this is a comment").unwrap();
    assert_eq!(tokens, with_eof(vec![]));
    let tokens = lex("# this is a comment").unwrap();
    assert_eq!(tokens, with_eof(vec![]));
}

#[test]
fn newline() {
    let tokens = lex("\n").unwrap();
    assert_eq!(tokens, with_eof(vec![token(TokenKind::Newline, "\n")]));
}

#[test]
fn escaped_newline() {
    let tokens = lex("\\\n").unwrap();
    assert_eq!(tokens, with_eof(vec![]));
}

#[test]
fn escaped_newline_fail() {
    let error = lex("\\h").unwrap_err();
    assert_eq!(error, Error::UnpairedBackslash(Some('h')));
}

#[test]
fn blank_line() {
    let tokens = lex("  ").unwrap();
    assert_eq!(tokens, with_eof(vec![]));
}

#[test]
fn indent() {
    let tokens = lex("  39").unwrap();
    assert_eq!(tokens, with_eof(vec![token(TokenKind::Indent, "  "), token(TokenKind::Integer, "39"), token(TokenKind::Dedent, "")]));
    let tokens = lex("   39").unwrap();
    assert_eq!(tokens, with_eof(vec![token(TokenKind::Indent, "   "), token(TokenKind::Integer, "39"), token(TokenKind::Dedent, "")]));
}

#[test]
fn blank_line_comments() {
    let tokens = lex("  #this is a comment").unwrap();
    assert_eq!(tokens, with_eof(vec![]));
    let tokens = lex("   #this is a comment").unwrap();
    assert_eq!(tokens, with_eof(vec![]));
}

#[test]
fn dedent() {
    let tokens = lex("  39\nhmm").unwrap();
    assert_eq!(tokens, with_eof(vec![token(TokenKind::Indent, "  "), token(TokenKind::Integer, "39"), token(TokenKind::Newline, "\n"), token(TokenKind::Dedent, ""), token(TokenKind::Identifier, "hmm")]));
}

#[test]
fn lex_tabbed_indent() {
    let tokens = lex("\t39").unwrap();
    let expected: Vec<Token> = vec![
            Token {
                kind: TokenKind::Indent,
                lexeme: "    ".to_owned(),
            }, Token {
                kind: TokenKind::Integer,
                lexeme: "39".to_owned(),
            }, Token {
                kind: TokenKind::Dedent,
                lexeme: "".to_owned(),
            }
        ];
    assert_eq!(tokens, with_eof(expected));
}

#[test]
fn lex_multiple_indent() {
    let tokens = lex("  39\n   hmm\n  1").unwrap();
    let expected: Vec<Token> = vec![
            Token {
                kind: TokenKind::Indent,
                lexeme: "  ".to_owned(),
            },
            Token {
                kind: TokenKind::Integer,
                lexeme: "39".to_owned(),
            },
            Token {
                kind: TokenKind::Newline,
                lexeme: "\n".to_owned(),
            },
            Token {
                kind: TokenKind::Indent,
                lexeme: "   ".to_owned(),
            },
            Token {
                kind: TokenKind::Identifier,
                lexeme: "hmm".to_owned(),
            },
            Token {
                kind: TokenKind::Newline,
                lexeme: "\n".to_owned(),
            },
            Token {
                kind: TokenKind::Dedent,
                lexeme: "  ".to_owned(),
            },
            Token {
                kind: TokenKind::Integer,
                lexeme: "1".to_owned(),
            },
            Token {
                kind: TokenKind::Dedent,
                lexeme: "".to_owned(),
            }
        ];
    assert_eq!(tokens, with_eof(expected));
}

#[test]
fn lex_print() {
    let tokens = lex("print").unwrap();
    let expected: Vec<Token> = vec![
            Token {
                kind: TokenKind::Print,
                lexeme: "print".to_owned(),
            }
        ];
    assert_eq!(tokens, with_eof(expected));
}

#[test]
fn lex_def() {
    let tokens = lex("def").unwrap();
    let expected: Vec<Token> = vec![
            Token {
                kind: TokenKind::Def,
                lexeme: "def".to_owned(),
            }
        ];
    assert_eq!(tokens, with_eof(expected));
}

#[test]
fn lex_elif() {
    let tokens = lex("elif").unwrap();
    let expected: Vec<Token> = vec![
            Token {
                kind: TokenKind::Elif,
                lexeme: "elif".to_owned(),
            }
        ];
    assert_eq!(tokens, with_eof(expected));
}

#[test]
fn lex_else_token() {
    let tokens = lex("else").unwrap();
    let expected: Vec<Token> = vec![
            Token {
                kind: TokenKind::Else,
                lexeme: "else".to_owned(),
            }
        ];
    assert_eq!(tokens, with_eof(expected));
}

#[test]
fn lex_parenl() {
    let tokens = lex("(").unwrap();
    let expected: Vec<Token> = vec![
            Token {
                kind: TokenKind::ParenL,
                lexeme: "(".to_owned(),
            }
        ];
    assert_eq!(tokens, with_eof(expected));
}

#[test]
fn lex_parenr() {
    let tokens = lex(")").unwrap();
    let expected: Vec<Token> = vec![
            Token {
                kind: TokenKind::ParenR,
                lexeme: ")".to_owned(),
            }
        ];
    assert_eq!(tokens, with_eof(expected));
}

#[test]
fn lex_return_token() {
    let tokens = lex("return").unwrap();
    let expected: Vec<Token> = vec![
            Token {
                kind: TokenKind::Return,
                lexeme: "return".to_owned(),
            }
        ];
    assert_eq!(tokens, with_eof(expected));
}

#[test]
fn lex_colon() {
    let tokens = lex(":").unwrap();
    let expected: Vec<Token> = vec![
            Token {
                kind: TokenKind::Colon,
                lexeme: ":".to_owned(),
            }
        ];
    assert_eq!(tokens, with_eof(expected));
}

#[test]
fn lex_comma() {
    let tokens = lex(",").unwrap();
    let expected: Vec<Token> = vec![
            Token {
                kind: TokenKind::Comma,
                lexeme: ",".to_owned(),
            }
        ];
    assert_eq!(tokens, with_eof(expected));
}

#[test]
fn lex_minus() {
    let tokens = lex("-").unwrap();
    let expected: Vec<Token> = vec![
            Token {
                kind: TokenKind::Minus,
                lexeme: "-".to_owned(),
            }
        ];
    assert_eq!(tokens, with_eof(expected));
}

#[test]
fn lex_plus() {
    let tokens = lex("+").unwrap();
    let expected: Vec<Token> = vec![
            Token {
                kind: TokenKind::Plus,
                lexeme: "+".to_owned(),
            }
        ];
    assert_eq!(tokens, with_eof(expected));
}

#[test]
fn lex_eqeq() {
    let tokens = lex("==").unwrap();
    let expected: Vec<Token> = vec![
            Token {
                kind: TokenKind::EqEq,
                lexeme: "==".to_owned(),
            }
        ];
    assert_eq!(tokens, with_eof(expected));
}

#[test]
fn lex_lt() {
    let tokens = lex("<").unwrap();
    let expected: Vec<Token> = vec![
            Token {
                kind: TokenKind::Lt,
                lexeme: "<".to_owned(),
            }
        ];
    assert_eq!(tokens, with_eof(expected));
}

#[test]
fn lex_gt() {
    let tokens = lex(">").unwrap();
    let expected: Vec<Token> = vec![
            Token {
                kind: TokenKind::Gt,
                lexeme: ">".to_owned(),
            }
        ];
    assert_eq!(tokens, with_eof(expected));
}

#[test]
fn lex_mult() {
    let tokens = lex("*").unwrap();
    let expected: Vec<Token> = vec![
            Token {
                kind: TokenKind::Mult,
                lexeme: "*".to_owned(),
            }
        ];
    assert_eq!(tokens, with_eof(expected));
}

#[test]
fn lex_div() {
    let tokens = lex("/").unwrap();
    let expected: Vec<Token> = vec![
            Token {
                kind: TokenKind::Div,
                lexeme: "/".to_owned(),
            }
        ];
    assert_eq!(tokens, with_eof(expected));
}

#[test]
fn lex_mod() {
    let tokens = lex("%").unwrap();
    let expected: Vec<Token> = vec![
            Token {
                kind: TokenKind::Mod,
                lexeme: "%".to_owned(),
            }
        ];
    assert_eq!(tokens, with_eof(expected));
}

#[test]
fn lex_and() {
    let tokens = lex("and").unwrap();
    let expected: Vec<Token> = vec![
            Token {
                kind: TokenKind::And,
                lexeme: "and".to_owned(),
            }
        ];
    assert_eq!(tokens, with_eof(expected));
}

#[test]
fn lex_or() {
    let tokens = lex("or").unwrap();
    let expected: Vec<Token> = vec![
            Token {
                kind: TokenKind::Or,
                lexeme: "or".to_owned(),
            }
        ];
    assert_eq!(tokens, with_eof(expected));
}

#[test]
fn lex_leq() {
    let tokens = lex("<=").unwrap();
    let expected: Vec<Token> = vec![
            Token {
                kind: TokenKind::Leq,
                lexeme: "<=".to_owned(),
            }
        ];
    assert_eq!(tokens, with_eof(expected));
}

#[test]
fn lex_geq() {
    let tokens = lex(">=").unwrap();
    let expected: Vec<Token> = vec![
            Token {
                kind: TokenKind::Geq,
                lexeme: ">=".to_owned(),
            }
        ];
    assert_eq!(tokens, with_eof(expected));
}

#[test]
fn lex_ne() {
    let tokens = lex("!=").unwrap();
    let expected: Vec<Token> = vec![
            Token {
                kind: TokenKind::Ne,
                lexeme: "!=".to_owned(),
            }
        ];
    assert_eq!(tokens, with_eof(expected));
}

#[test]
fn lex_illegal_indent() {
    let error = lex("  39\n   hmm\n 1").unwrap_err();
    assert_eq!(error, Error::UnmatchedIndentationLevel(1));
}

#[test]
fn lex_ne_error() {
    let error = lex("!").unwrap_err();
    assert_eq!(error, Error::UnexpectedCharacter(None));
}

#[test]
fn lex_eqeq_error() {
    let error = lex("=").unwrap_err();
    assert_eq!(error, Error::UnexpectedCharacter(None));
}

#[test]
fn lex_tab_is_four_columns() {
    let tokens = lex("\t\t39").unwrap();
    assert_eq!(
        tokens,
        with_eof(vec![
            token(TokenKind::Indent, "        "),
            token(TokenKind::Integer, "39"),
            token(TokenKind::Dedent, ""),
        ])
    );
    let tokens = lex(" \t39\n     1").unwrap();
    assert_eq!(
        tokens,
        with_eof(vec![
            token(TokenKind::Indent, "     "),
            token(TokenKind::Integer, "39"),
            token(TokenKind::Newline, "\n"),
            token(TokenKind::Integer, "1"),
            token(TokenKind::Dedent, ""),
        ])
    );
}

#[test]
fn lex_unmatched_indentation_level() {
    assert_eq!(lex("    a\n  b").unwrap_err(), Error::UnmatchedIndentationLevel(2));
    assert_eq!(lex("  a\n    b\n   c").unwrap_err(), Error::UnmatchedIndentationLevel(3));
}

#[test]
fn lex_unexpected_character_holds_what_followed() {
    assert_eq!(lex("=a").unwrap_err(), Error::UnexpectedCharacter(Some('a')));
    assert_eq!(lex("!x").unwrap_err(), Error::UnexpectedCharacter(Some('x')));
    assert_eq!(lex("a = b").unwrap_err(), Error::UnexpectedCharacter(Some(' ')));
}

#[test]
fn lex_unpaired_backslash_at_the_end() {
    assert_eq!(lex("\\").unwrap_err(), Error::UnpairedBackslash(None));
    assert_eq!(lex("a \\ b").unwrap_err(), Error::UnpairedBackslash(Some(' ')));
}

#[test]
fn lex_unexpected_start_of_token() {
    assert_eq!(lex("A").unwrap_err(), Error::UnexpectedStartOfToken('A'));
    assert_eq!(lex("a_b").unwrap_err(), Error::UnexpectedStartOfToken('_'));
    assert_eq!(lex("print \"x\"").unwrap_err(), Error::UnexpectedStartOfToken('"'));
}

#[test]
fn lex_indentation_is_checked_before_the_character() {
    assert_eq!(lex("  a\n $").unwrap_err(), Error::UnmatchedIndentationLevel(1));
    assert_eq!(lex("  a\n  $").unwrap_err(), Error::UnexpectedStartOfToken('$'));
}

#[test]
fn lex_words_take_letters_and_digits() {
    let tokens = lex("a1b2 if1 iff 12ab").unwrap();
    assert_eq!(
        tokens,
        with_eof(vec![
            token(TokenKind::Identifier, "a1b2"),
            token(TokenKind::Identifier, "if1"),
            token(TokenKind::Identifier, "iff"),
            token(TokenKind::Integer, "12"),
            token(TokenKind::Identifier, "ab"),
        ])
    );
}

#[test]
fn lex_continuation_stays_on_the_line() {
    let tokens = lex("a \\\n    b").unwrap();
    assert_eq!(
        tokens,
        with_eof(vec![token(TokenKind::Identifier, "a"), token(TokenKind::Identifier, "b")])
    );
}

#[test]
fn lex_comment_ends_at_the_newline() {
    let tokens = lex("a # b c\n  # d\nb").unwrap();
    assert_eq!(
        tokens,
        with_eof(vec![
            token(TokenKind::Identifier, "a"),
            token(TokenKind::Newline, "\n"),
            token(TokenKind::Newline, "\n"),
            token(TokenKind::Identifier, "b"),
        ])
    );
}

#[test]
fn lex_operators_without_spaces() {
    let tokens = lex("a<=b>=c==d!=e<f>g").unwrap();
    let kinds: Vec<TokenKind> = tokens.iter().map(|t| t.kind).collect();
    assert_eq!(
        kinds,
        vec![
            TokenKind::Identifier,
            TokenKind::Leq,
            TokenKind::Identifier,
            TokenKind::Geq,
            TokenKind::Identifier,
            TokenKind::EqEq,
            TokenKind::Identifier,
            TokenKind::Ne,
            TokenKind::Identifier,
            TokenKind::Lt,
            TokenKind::Identifier,
            TokenKind::Gt,
            TokenKind::Identifier,
            TokenKind::Eof,
        ]
    );
}

#[test]
fn lex_closes_several_blocks_at_once() {
    let tokens = lex("a\n  b\n    c\nd").unwrap();
    assert_eq!(
        tokens,
        with_eof(vec![
            token(TokenKind::Identifier, "a"),
            token(TokenKind::Newline, "\n"),
            token(TokenKind::Indent, "  "),
            token(TokenKind::Identifier, "b"),
            token(TokenKind::Newline, "\n"),
            token(TokenKind::Indent, "    "),
            token(TokenKind::Identifier, "c"),
            token(TokenKind::Newline, "\n"),
            token(TokenKind::Dedent, ""),
            token(TokenKind::Dedent, ""),
            token(TokenKind::Identifier, "d"),
        ])
    );
}

#[test]
fn lex_emits_as_many_dedents_as_indents() {
    let sources = [
        "",
        "  39",
        "a\n  b\n    c\nd",
        "a\n  b\n    c\n  d\n      e",
        "def f(n):\n if n < 5:\n  return 0\n else:\n  return 3\nprint f(4)",
        "\t1\n\t\t2\n\t3\n4",
    ];
    for source in sources {
        let tokens = lex(source).unwrap();
        assert_eq!(count(&tokens, TokenKind::Indent), count(&tokens, TokenKind::Dedent));
        assert_eq!(count(&tokens, TokenKind::Eof), 1);
        assert_eq!(tokens.last().unwrap().kind, TokenKind::Eof);
    }
}
