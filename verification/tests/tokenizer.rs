use sqlschema::constructs::components::DataTypeRaw;
use sqlschema::sql::errors::SyntaxError;
use sqlschema::sql::tokenizer::{tokenize, Delimiter, Keyword, Token, TokenValue};

fn values(text: &str) -> Vec<TokenValue> {
    tokenize(text)
        .unwrap()
        .into_iter()
        .map(|token| token.value)
        .collect()
}

#[test]
fn empty_text_has_no_tokens() {
    assert_eq!(tokenize(""), Ok(vec![]));
    assert_eq!(tokenize(" \t\r\n  "), Ok(vec![]));
}

#[test]
fn symbols_stand_alone() {
    assert_eq!(
        values("(),;"),
        vec![
            TokenValue::Delimiting(Delimiter::ParenthesisOpening),
            TokenValue::Delimiting(Delimiter::ParenthesisClosing),
            TokenValue::Delimiting(Delimiter::Comma),
            TokenValue::Delimiting(Delimiter::Semicolon),
        ]
    );
}

#[test]
fn reserved_words_in_any_case() {
    assert_eq!(
        values("CREATE table If nOt EXISTS primary Key NULLABLE"),
        vec![
            TokenValue::Const(Keyword::Create),
            TokenValue::Const(Keyword::Table),
            TokenValue::Const(Keyword::If),
            TokenValue::Const(Keyword::Not),
            TokenValue::Const(Keyword::Exists),
            TokenValue::Const(Keyword::Primary),
            TokenValue::Const(Keyword::Key),
            TokenValue::Const(Keyword::Nullable),
        ]
    );
}

#[test]
fn type_names_in_any_case() {
    assert_eq!(
        values("UInt8 uint16 UINT32 UInt64 uInt128 bool TIMESTAMP Uuid string"),
        vec![
            TokenValue::Type(DataTypeRaw::UInt8),
            TokenValue::Type(DataTypeRaw::UInt16),
            TokenValue::Type(DataTypeRaw::UInt32),
            TokenValue::Type(DataTypeRaw::UInt64),
            TokenValue::Type(DataTypeRaw::UInt128),
            TokenValue::Type(DataTypeRaw::Bool),
            TokenValue::Type(DataTypeRaw::Timestamp),
            TokenValue::Type(DataTypeRaw::Uuid),
            TokenValue::Type(DataTypeRaw::String),
        ]
    );
}

#[test]
fn other_words_keep_their_case() {
    assert_eq!(
        values("Users user_id _x 9lives creates uint7 Z"),
        vec![
            TokenValue::Arbitrary("Users".to_string()),
            TokenValue::Arbitrary("user_id".to_string()),
            TokenValue::Arbitrary("_x".to_string()),
            TokenValue::Arbitrary("9lives".to_string()),
            TokenValue::Arbitrary("creates".to_string()),
            TokenValue::Arbitrary("uint7".to_string()),
            TokenValue::Arbitrary("Z".to_string()),
        ]
    );
}

#[test]
fn words_end_at_symbols_and_blanks() {
    assert_eq!(
        values("a(b,c)d;e f"),
        vec![
            TokenValue::Arbitrary("a".to_string()),
            TokenValue::Delimiting(Delimiter::ParenthesisOpening),
            TokenValue::Arbitrary("b".to_string()),
            TokenValue::Delimiting(Delimiter::Comma),
            TokenValue::Arbitrary("c".to_string()),
            TokenValue::Delimiting(Delimiter::ParenthesisClosing),
            TokenValue::Arbitrary("d".to_string()),
            TokenValue::Delimiting(Delimiter::Semicolon),
            TokenValue::Arbitrary("e".to_string()),
            TokenValue::Arbitrary("f".to_string()),
        ]
    );
}

#[test]
fn lines_are_counted_from_one() {
    assert_eq!(
        tokenize("create\n\ntable t\r\n(\n x"),
        Ok(vec![
            Token {
                value: TokenValue::Const(Keyword::Create),
                line_number: 1
            },
            Token {
                value: TokenValue::Const(Keyword::Table),
                line_number: 3
            },
            Token {
                value: TokenValue::Arbitrary("t".to_string()),
                line_number: 3
            },
            Token {
                value: TokenValue::Delimiting(Delimiter::ParenthesisOpening),
                line_number: 4
            },
            Token {
                value: TokenValue::Arbitrary("x".to_string()),
                line_number: 5
            },
        ])
    );
}

#[test]
fn unexpected_character_is_named_with_its_line() {
    assert_eq!(
        tokenize("create table t (a UInt8)\n  -- no"),
        Err(SyntaxError(
            "Unexpected character `-` at line 2.".to_string()
        ))
    );
    assert_eq!(
        tokenize("a.b"),
        Err(SyntaxError(
            "Unexpected character `.` at line 1.".to_string()
        ))
    );
}

#[test]
fn letters_outside_ascii_are_no_word_characters() {
    assert_eq!(
        tokenize("caf\u{e9}"),
        Err(SyntaxError(
            "Unexpected character `\u{e9}` at line 1.".to_string()
        ))
    );
    assert_eq!(
        tokenize("\u{212a}ey"),
        Err(SyntaxError(
            "Unexpected character `\u{212a}` at line 1.".to_string()
        ))
    );
}

#[test]
fn line_numbers_of_several_digits() {
    let text = format!("{}?", "\n".repeat(1203));
    assert_eq!(
        tokenize(&text),
        Err(SyntaxError(
            "Unexpected character `?` at line 1204.".to_string()
        ))
    );
    let text = format!("{}x", "\n".repeat(9));
    assert_eq!(
        tokenize(&text),
        Ok(vec![Token {
            value: TokenValue::Arbitrary("x".to_string()),
            line_number: 10
        }])
    );
}

#[test]
fn tokens_in_messages() {
    assert_eq!(TokenValue::Const(Keyword::Create).to_text(), "CREATE");
    assert_eq!(TokenValue::Const(Keyword::Nullable).to_text(), "NULLABLE");
    assert_eq!(TokenValue::Type(DataTypeRaw::Timestamp).to_text(), "Timestamp");
    assert_eq!(
        TokenValue::Delimiting(Delimiter::ParenthesisClosing).to_text(),
        ")"
    );
    assert_eq!(TokenValue::Arbitrary("Users".to_string()).to_text(), "Users");
    assert_eq!(
        Token {
            value: TokenValue::Arbitrary("Users".to_string()),
            line_number: 70
        }
        .to_text(),
        "`Users` at line 70"
    );
    assert_eq!(
        Token {
            value: TokenValue::Delimiting(Delimiter::Comma),
            line_number: 0
        }
        .to_text(),
        "`,` at line 0"
    );
}

#[test]
fn token_values_are_equal_by_kind_and_content() {
    assert_eq!(
        TokenValue::Const(Keyword::Key),
        TokenValue::Const(Keyword::Key)
    );
    assert_ne!(
        TokenValue::Const(Keyword::Key),
        TokenValue::Arbitrary("KEY".to_string())
    );
    assert_ne!(
        TokenValue::Arbitrary("a".to_string()),
        TokenValue::Arbitrary("b".to_string())
    );
    assert_ne!(
        TokenValue::Type(DataTypeRaw::String),
        TokenValue::Type(DataTypeRaw::Uuid)
    );
    assert_ne!(
        TokenValue::Delimiting(Delimiter::Comma),
        TokenValue::Delimiting(Delimiter::Semicolon)
    );
}
