use lox_scanner::lox::state;
use lox_scanner::scanner::Scanner;
use lox_scanner::token::{Decimal, LiteralType, Token, TokenType};

use TokenType::{
    And, Bang, BangEqual, Class, Comma, Dot, Else, EndOfInput, Equal, EqualEqual, False, For, Fun,
    Greater, GreaterEqual, Identifier, If, LeftBrace, LeftParen, Less, LessEqual, Minus, Nil,
    Number, Or, Plus, Print, Return, RightBrace, RightParen, Semicolon, Slash, Star, Super, This,
    True, Var, While,
};

fn tokens(input: &str) -> Vec<Token> {
    let mut diagnostics = state();
    Scanner::new(input).scan_tokens(&mut diagnostics)
}

fn scan(input: &str) -> Vec<TokenType> {
    tokens(input).iter().map(|t| t.token_type).collect()
}

/// The categories of the tokens that are no words: neither identifiers nor
/// keywords.
fn scan_without_words(input: &str) -> Vec<TokenType> {
    scan(input)
        .into_iter()
        .filter(|t| {
            !matches!(
                t,
                Identifier
                    | And
                    | Class
                    | Else
                    | False
                    | Fun
                    | For
                    | If
                    | Nil
                    | Or
                    | Print
                    | Return
                    | Super
                    | This
                    | True
                    | Var
                    | While
            )
        })
        .collect()
}

fn reports(input: &str) -> (Vec<TokenType>, bool, Vec<String>) {
    let mut diagnostics = state();
    let found = Scanner::new(input).scan_tokens(&mut diagnostics);
    let kinds = found.iter().map(|t| t.token_type).collect();
    let flag = diagnostics.has_error();
    (kinds, flag, diagnostics.take_output())
}

fn number(digits: &[u8], scale: usize) -> LiteralType {
    LiteralType::NumberLiteral(Decimal { digits: digits.to_vec(), scale })
}

fn as_float(literal: &LiteralType) -> f64 {
    match literal {
        LiteralType::NumberLiteral(decimal) => {
            let mut value = 0.0_f64;
            for d in &decimal.digits {
                value = value * 10.0 + f64::from(*d);
            }
            value / 10.0_f64.powi(decimal.scale as i32)
        }
        _ => panic!("not a number"),
    }
}

#[test]
fn it_reads_single_line_comments() {
    assert_eq!(scan("// just a comment"), vec![EndOfInput]);
}

#[test]
fn it_reads_bang_equals() {
    assert_eq!(
        scan("asdf != foo;"),
        vec![Identifier, BangEqual, Identifier, Semicolon, EndOfInput]
    );
    assert_eq!(scan_without_words("asdf != foo;"), vec![BangEqual, Semicolon, EndOfInput]);
}

#[test]
fn it_reads_bang_operator() {
    assert_eq!(scan("10 ! 20;"), vec![Number, Bang, Number, Semicolon, EndOfInput]);
}

#[test]
fn it_reads_a_bunch_of_single_character_lexemes() {
    assert_eq!(
        scan("() {} . <> * "),
        vec![LeftParen, RightParen, LeftBrace, RightBrace, Dot, Less, Greater, Star, EndOfInput]
    )
}

#[test]
fn it_reads_a_string_literal() {
    assert_eq!(scan("\"this is a string\";"), vec![TokenType::String, Semicolon, EndOfInput]);
}

#[test]
fn it_reads_a_boolean_statement_with_strings() {
    assert_eq!(
        scan("\"asdf\" == \"boo\";"),
        vec![TokenType::String, EqualEqual, TokenType::String, Semicolon, EndOfInput]
    )
}

#[test]
fn it_reads_an_integer_number() {
    assert_eq!(
        scan("var foo = 9;"),
        vec![Var, Identifier, Equal, Number, Semicolon, EndOfInput]
    );
    assert_eq!(scan_without_words("var foo = 9;"), vec![Equal, Number, Semicolon, EndOfInput])
}

#[test]
fn it_reads_a_float_number() {
    assert_eq!(
        scan("var foo = 9.123455443;"),
        vec![Var, Identifier, Equal, Number, Semicolon, EndOfInput]
    );
    assert_eq!(
        scan_without_words("var foo = 9.123455443;"),
        vec![Equal, Number, Semicolon, EndOfInput]
    )
}

#[test]
fn empty_input_gives_only_the_marker() {
    let found = tokens("");
    assert_eq!(
        found,
        vec![Token {
            token_type: EndOfInput,
            lexeme: String::new(),
            literal: LiteralType::Nil,
            line: 1,
        }]
    );
}

#[test]
fn the_marker_is_last_and_only_once() {
    for input in ["", "!=", "var x = \"a\nb\"; // c\n@ 1.5", "\"open", "\n\n\n", "a.b(c)"] {
        let kinds = scan(input);
        assert_eq!(kinds.last(), Some(&EndOfInput));
        assert_eq!(kinds.iter().filter(|k| **k == EndOfInput).count(), 1);
    }
}

#[test]
fn the_marker_has_no_text_and_stands_on_the_last_line() {
    let found = tokens("1\n2\n");
    let marker = found.last().unwrap();
    assert_eq!(marker.lexeme, "");
    assert_eq!(marker.literal, LiteralType::Nil);
    assert_eq!(marker.line, 3);
}

#[test]
fn bang_equal_is_one_token() {
    let found = tokens("!=");
    assert_eq!(found.len(), 2);
    assert_eq!(found[0].token_type, BangEqual);
    assert_eq!(found[0].lexeme, "!=");
    assert_eq!(found[0].literal, LiteralType::Nil);
    assert_eq!(found[0].line, 1);
    assert_eq!(found[1].token_type, EndOfInput);
}

#[test]
fn the_longer_operator_wins() {
    assert_eq!(scan("<="), vec![LessEqual, EndOfInput]);
    assert_eq!(scan(">="), vec![GreaterEqual, EndOfInput]);
    assert_eq!(scan("=="), vec![EqualEqual, EndOfInput]);
    assert_eq!(scan("==="), vec![EqualEqual, Equal, EndOfInput]);
    assert_eq!(scan("!=="), vec![BangEqual, Equal, EndOfInput]);
    assert_eq!(scan("! ="), vec![Bang, Equal, EndOfInput]);
    assert_eq!(scan("<>"), vec![Less, Greater, EndOfInput]);
    assert_eq!(scan("!"), vec![Bang, EndOfInput]);
    assert_eq!(scan("="), vec![Equal, EndOfInput]);
}

#[test]
fn every_single_character_token() {
    assert_eq!(
        scan("(){},.-+;/*"),
        vec![
            LeftParen, RightParen, LeftBrace, RightBrace, Comma, Dot, Minus, Plus, Semicolon,
            Slash, Star, EndOfInput
        ]
    );
}

#[test]
fn a_comment_ends_at_the_newline() {
    let found = tokens("+ // plus / and more\n-");
    assert_eq!(found.len(), 3);
    assert_eq!(found[0].token_type, Plus);
    assert_eq!(found[0].line, 1);
    assert_eq!(found[1].token_type, Minus);
    assert_eq!(found[1].line, 2);
    assert_eq!(found[2].line, 2);
}

#[test]
fn a_single_slash_divides() {
    assert_eq!(scan("8 / 2"), vec![Number, Slash, Number, EndOfInput]);
    assert_eq!(scan("/"), vec![Slash, EndOfInput]);
}

#[test]
fn a_string_literal_loses_its_quotes() {
    let found = tokens("\"this is a string\";");
    assert_eq!(found[0].token_type, TokenType::String);
    assert_eq!(found[0].lexeme, "\"this is a string\"");
    assert_eq!(
        found[0].literal,
        LiteralType::StringLiteral(String::from("this is a string"))
    );
    assert_eq!(found[1].lexeme, ";");
}

#[test]
fn an_empty_string_literal() {
    let found = tokens("\"\"");
    assert_eq!(found[0].token_type, TokenType::String);
    assert_eq!(found[0].lexeme, "\"\"");
    assert_eq!(found[0].literal, LiteralType::StringLiteral(String::new()));
}

#[test]
fn a_string_literal_keeps_backslashes_and_other_alphabets() {
    let found = tokens("\"a\\n é 日本\"");
    assert_eq!(found.len(), 2);
    assert_eq!(found[0].literal, LiteralType::StringLiteral(String::from("a\\n é 日本")));
    assert_eq!(found[0].lexeme, "\"a\\n é 日本\"");
}

#[test]
fn a_string_over_several_lines_stands_on_its_first() {
    let found = tokens("\n\"one\ntwo\nthree\" +");
    assert_eq!(scan("\n\"one\ntwo\nthree\" +"), vec![TokenType::String, Plus, EndOfInput]);
    assert_eq!(found[0].line, 2);
    assert_eq!(found[0].literal, LiteralType::StringLiteral(String::from("one\ntwo\nthree")));
    assert_eq!(found[1].line, 4);
    assert_eq!(found[2].line, 4);
}

#[test]
fn a_float_literal_is_decoded() {
    let found = tokens("var foo = 9.123455443;");
    assert_eq!(found[3].token_type, Number);
    assert_eq!(found[3].lexeme, "9.123455443");
    assert_eq!(found[3].literal, number(&[9, 1, 2, 3, 4, 5, 5, 4, 4, 3], 9));
    assert!((as_float(&found[3].literal) - 9.123455443).abs() < 1e-12);
    assert_eq!(found[0].lexeme, "var");
    assert_eq!(found[1].lexeme, "foo");
}

#[test]
fn an_integer_literal_is_decoded() {
    let found = tokens("1234567890123456789012345");
    assert_eq!(found.len(), 2);
    assert_eq!(
        found[0].literal,
        number(
            &[1, 2, 3, 4, 5, 6, 7, 8, 9, 0, 1, 2, 3, 4, 5, 6, 7, 8, 9, 0, 1, 2, 3, 4, 5],
            0
        )
    );
    assert_eq!(tokens("007")[0].literal, number(&[0, 0, 7], 0));
    assert_eq!(as_float(&tokens("10")[0].literal), 10.0);
}

#[test]
fn a_point_needs_a_digit_behind_it() {
    let found = tokens("12.");
    assert_eq!(scan("12."), vec![Number, Dot, EndOfInput]);
    assert_eq!(found[0].lexeme, "12");
    assert_eq!(found[0].literal, number(&[1, 2], 0));

    assert_eq!(scan("12.x"), vec![Number, Dot, Identifier, EndOfInput]);
    assert_eq!(scan(".5"), vec![Dot, Number, EndOfInput]);

    let found = tokens("1.25.5");
    assert_eq!(scan("1.25.5"), vec![Number, Dot, Number, EndOfInput]);
    assert_eq!(found[0].lexeme, "1.25");
    assert_eq!(found[0].literal, number(&[1, 2, 5], 2));
    assert_eq!(found[2].literal, number(&[5], 0));
    assert_eq!(as_float(&found[0].literal), 1.25);
}

#[test]
fn every_keyword() {
    assert_eq!(
        scan("and class else false fun for if nil or print return super this true var while"),
        vec![
            And, Class, Else, False, Fun, For, If, Nil, Or, Print, Return, Super, This, True,
            Var, While, EndOfInput
        ]
    );
}

#[test]
fn keywords_are_whole_words_in_lower_case() {
    assert_eq!(
        scan("classy Var nil_ _if or2 fo forfor While TRUE"),
        vec![
            Identifier, Identifier, Identifier, Identifier, Identifier, Identifier, Identifier,
            Identifier, Identifier, EndOfInput
        ]
    );
}

#[test]
fn identifiers_take_letters_digits_and_underscores() {
    let found = tokens("_a1_b2+x9");
    assert_eq!(scan("_a1_b2+x9"), vec![Identifier, Plus, Identifier, EndOfInput]);
    assert_eq!(found[0].lexeme, "_a1_b2");
    assert_eq!(found[0].literal, LiteralType::Nil);
    assert_eq!(found[2].lexeme, "x9");
    assert_eq!(scan("9x"), vec![Number, Identifier, EndOfInput]);
}

#[test]
fn blank_space_is_passed_over_in_silence() {
    let (kinds, flag, lines) = reports(" \t\r\n 1 \t\r\n");
    assert_eq!(kinds, vec![Number, EndOfInput]);
    assert!(!flag);
    assert!(lines.is_empty());
    assert_eq!(tokens(" \t\r\n 1 \t\r\n")[0].line, 2);
}

#[test]
fn lines_count_every_newline() {
    let input = "a\n// b\n\"c\nd\"\n\ne // f\n\"g\n";
    let found = tokens(input);
    let lines: Vec<usize> = found.iter().map(|t| t.line).collect();
    assert_eq!(scan(input), vec![Identifier, TokenType::String, Identifier, EndOfInput]);
    assert_eq!(lines, vec![1, 3, 6, 8]);
    assert_eq!(input.matches('\n').count() + 1, 8);
}

#[test]
fn lines_never_fall() {
    for input in ["1\n2\n\n3", "\"a\nb\" c\n// d\n e @\n", "x", "\n\n"] {
        let found = tokens(input);
        for pair in found.windows(2) {
            assert!(pair[0].line <= pair[1].line);
        }
        let starts: Vec<usize> = found.iter().map(|t| t.line).collect();
        assert_eq!(*starts.last().unwrap(), input.matches('\n').count() + 1);
    }
}

#[test]
fn the_lexemes_are_the_source_without_what_was_passed_over() {
    let input = "var answer=(4.5+x)/2; // half\n\tprint \"a b\" != nil;\r\n";
    let found = tokens(input);
    let mut rest = input;
    let mut between = Vec::new();
    let mut rebuilt = String::new();
    for token in &found[..found.len() - 1] {
        let at = rest.find(token.lexeme.as_str()).unwrap();
        between.push(&rest[..at]);
        rebuilt.push_str(&rest[..at]);
        rebuilt.push_str(&token.lexeme);
        rest = &rest[at + token.lexeme.len()..];
    }
    between.push(rest);
    rebuilt.push_str(rest);
    assert_eq!(rebuilt, input);
    assert_eq!(
        between,
        vec!["", " ", "", "", "", "", "", "", "", "", "", " // half\n\t", " ", " ", " ", "", "\r\n"]
    );
    let joined: String = found.iter().map(|t| t.lexeme.as_str()).collect();
    assert_eq!(joined, "varanswer=(4.5+x)/2;print\"a b\"!=nil;");
}

#[test]
fn an_unterminated_string_is_reported_and_dropped() {
    let (kinds, flag, lines) = reports("\"abc");
    assert_eq!(kinds, vec![EndOfInput]);
    assert!(flag);
    assert_eq!(lines, vec![String::from("[line 1] Error : unterminated string")]);
}

#[test]
fn an_unterminated_string_is_reported_where_the_text_ends() {
    let (kinds, flag, lines) = reports("1 +\n\"abc\ndef\n");
    assert_eq!(kinds, vec![Number, Plus, EndOfInput]);
    assert!(flag);
    assert_eq!(lines, vec![String::from("[line 4] Error : unterminated string")]);
    assert_eq!(tokens("1 +\n\"abc\ndef\n")[2].line, 4);
}

#[test]
fn an_unknown_character_is_reported_and_skipped() {
    let (kinds, flag, lines) = reports("@");
    assert_eq!(kinds, vec![EndOfInput]);
    assert!(flag);
    assert_eq!(lines, vec![String::from("[line 1] Error : unexpected character: @")]);
}

#[test]
fn scanning_goes_on_after_an_error() {
    let (kinds, flag, lines) = reports("1 # 2\n$ é\n3 \"x");
    assert_eq!(kinds, vec![Number, Number, Number, EndOfInput]);
    assert!(flag);
    assert_eq!(
        lines,
        vec![
            String::from("[line 1] Error : unexpected character: #"),
            String::from("[line 2] Error : unexpected character: $"),
            String::from("[line 2] Error : unexpected character: é"),
            String::from("[line 3] Error : unterminated string"),
        ]
    );
}

#[test]
fn a_clean_scan_leaves_the_flag_alone() {
    let mut diagnostics = state();
    Scanner::new("@").scan_tokens(&mut diagnostics);
    assert!(diagnostics.has_error());
    Scanner::new("1 + 2").scan_tokens(&mut diagnostics);
    assert!(diagnostics.has_error());
    assert_eq!(diagnostics.take_output().len(), 1);

    let mut clean = state();
    Scanner::new("1 + 2").scan_tokens(&mut clean);
    assert!(!clean.has_error());
    assert!(clean.take_output().is_empty());
}

#[test]
fn reports_of_several_scans_pile_up_in_order() {
    let mut diagnostics = state();
    Scanner::new("\n@").scan_tokens(&mut diagnostics);
    diagnostics.reset();
    assert!(!diagnostics.has_error());
    Scanner::new("\"").scan_tokens(&mut diagnostics);
    assert!(diagnostics.has_error());
    assert_eq!(
        diagnostics.take_output(),
        vec![
            String::from("[line 2] Error : unexpected character: @"),
            String::from("[line 1] Error : unterminated string"),
        ]
    );
}

#[test]
fn a_second_scan_gives_the_same_tokens_and_no_new_report() {
    let mut diagnostics = state();
    let mut scanner = Scanner::new("a @ 1.5");
    let first = scanner.scan_tokens(&mut diagnostics);
    let second = scanner.scan_tokens(&mut diagnostics);
    assert_eq!(first, second);
    assert_eq!(
        first.iter().map(|t| t.token_type).collect::<Vec<_>>(),
        vec![Identifier, Number, EndOfInput]
    );
    assert_eq!(diagnostics.take_output().len(), 1);
}

#[test]
fn a_copy_of_a_token_is_equal_to_it() {
    for token in tokens("x = \"s\" + 1.5;") {
        assert_eq!(token.duplicate(), token);
        assert_eq!(token.literal.duplicate(), token.literal);
    }
    let decimal = Decimal { digits: vec![1, 5], scale: 1 };
    assert_eq!(decimal.duplicate(), decimal);
}

#[test]
fn every_literal_goes_with_its_category() {
    let input = "print \"a b\" + 12.50 - 7 * x; // \"no\" 1.5\n\"\" 0.0";
    let found = tokens(input);
    assert_eq!(found.len(), 12);
    for token in &found {
        match (&token.token_type, &token.literal) {
            (TokenType::String, LiteralType::StringLiteral(text)) => {
                assert_eq!(token.lexeme, format!("\"{}\"", text));
                assert!(!text.contains('"'));
            }
            (Number, LiteralType::NumberLiteral(decimal)) => {
                assert!(decimal.digits.iter().all(|d| *d <= 9));
                assert!(decimal.scale < decimal.digits.len());
                let point = if decimal.scale > 0 { 1 } else { 0 };
                assert_eq!(token.lexeme.chars().count(), decimal.digits.len() + point);
            }
            (TokenType::String, _) | (Number, _) => panic!("a literal without its value"),
            (_, literal) => assert_eq!(*literal, LiteralType::Nil),
        }
    }
    assert_eq!(found[1].literal, LiteralType::StringLiteral(String::from("a b")));
    assert_eq!(found[3].literal, number(&[1, 2, 5, 0], 2));
    assert_eq!(found[5].literal, number(&[7], 0));
    assert_eq!(found[9].literal, LiteralType::StringLiteral(String::new()));
    assert_eq!(found[10].literal, number(&[0, 0], 1));
}
