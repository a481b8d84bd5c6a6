use bf_interpreter::engine::BfInterpreter;
use bf_interpreter::token::{LoadError, Token};

#[test]
fn tokenize_keeps_recognized_bytes_in_order() {
    let tokens = BfInterpreter::parse_program(b"a+b>c-");
    assert_eq!(
        tokens,
        vec![Token::IncByte, Token::IncDataPtr, Token::DecByte]
    );
    assert!(tokens.len() <= b"a+b>c-".len());
}

#[test]
fn tokenize_maps_all_eight_characters() {
    let tokens = BfInterpreter::parse_program(b"><+-.,[]");
    assert_eq!(
        tokens,
        vec![
            Token::IncDataPtr,
            Token::DecDataPtr,
            Token::IncByte,
            Token::DecByte,
            Token::WriteByte,
            Token::ReadByte,
            Token::BeginLoop,
            Token::EndLoop,
        ]
    );
}

#[test]
fn tokenize_drops_everything_else() {
    let tokens = BfInterpreter::parse_program(b"hello world 123\n\t");
    assert_eq!(tokens, vec![]);
}

#[test]
fn bracket_map_of_adjacent_pair() {
    let tokens = BfInterpreter::parse_program(b"[]");
    let map = BfInterpreter::find_matching_parens(&tokens).unwrap();
    assert_eq!(map, vec![1, 0]);
}

#[test]
fn bracket_map_of_nested_pairs_is_involution() {
    let tokens = BfInterpreter::parse_program(b"[[]][]");
    let map = BfInterpreter::find_matching_parens(&tokens).unwrap();
    assert_eq!(map, vec![3, 2, 1, 0, 5, 4]);
    for i in 0..tokens.len() {
        assert_eq!(map[map[i]], i);
    }
}

#[test]
fn unmatched_close_is_reported_first() {
    // a close with no pending open fails even though an open dangles too
    let tokens = BfInterpreter::parse_program(b"][");
    assert_eq!(
        BfInterpreter::find_matching_parens(&tokens),
        Err(LoadError::UnmatchedClose)
    );
}

#[test]
fn construction_error_variants() {
    assert_eq!(
        BfInterpreter::new(b"[").unwrap_err(),
        LoadError::UnmatchedOpen
    );
    assert_eq!(
        BfInterpreter::new(b"]").unwrap_err(),
        LoadError::UnmatchedClose
    );
    assert!(BfInterpreter::new(b"[.]").is_ok());
}

#[test]
fn error_messages() {
    assert_eq!(LoadError::UnmatchedOpen.message(), "Missing ']'");
    assert_eq!(LoadError::UnmatchedClose.message(), "Missing '['");
}
