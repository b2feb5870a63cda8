use angularjs_lsp::handler::semantic_tokens::{encode_tokens, RawSemanticToken};

fn raw(line: u32, start_col: u32, length: u32, token_type: u32) -> RawSemanticToken {
    RawSemanticToken { line, start_col, length, token_type, token_modifiers: 0 }
}

#[test]
fn encode_tokens_skips_zero_length() {
    let tokens = vec![raw(0, 0, 0, 0), raw(0, 5, 3, 0)];
    let encoded = encode_tokens(tokens);
    assert_eq!(encoded.len(), 1);
    assert_eq!(encoded[0].delta_start, 5);
    assert_eq!(encoded[0].length, 3);
}

#[test]
fn encode_tokens_skips_exact_duplicate_span() {
    let tokens = vec![raw(2, 5, 4, 0), raw(2, 5, 4, 1)];
    let encoded = encode_tokens(tokens);
    assert_eq!(encoded.len(), 1);
}

#[test]
fn encode_tokens_skips_overlapping_tokens() {
    let tokens = vec![raw(2, 5, 5, 0), raw(2, 7, 5, 1)];
    let encoded = encode_tokens(tokens);
    assert_eq!(encoded.len(), 1);
    assert_eq!(encoded[0].delta_start, 5);
    assert_eq!(encoded[0].length, 5);
}

#[test]
fn encode_tokens_keeps_adjacent_non_overlapping() {
    let tokens = vec![raw(2, 5, 3, 0), raw(2, 8, 4, 1)];
    let encoded = encode_tokens(tokens);
    assert_eq!(encoded.len(), 2);
    assert_eq!(encoded[0].delta_start, 5);
    assert_eq!(encoded[1].delta_line, 0);
    assert_eq!(encoded[1].delta_start, 3);
}

#[test]
fn encode_tokens_correct_delta_encoding() {
    let tokens = vec![raw(1, 2, 3, 0), raw(1, 10, 4, 1), raw(3, 5, 2, 2)];
    let encoded = encode_tokens(tokens);
    assert_eq!(encoded.len(), 3);
    assert_eq!(encoded[0].delta_line, 1);
    assert_eq!(encoded[0].delta_start, 2);
    assert_eq!(encoded[0].length, 3);
    assert_eq!(encoded[1].delta_line, 0);
    assert_eq!(encoded[1].delta_start, 8);
    assert_eq!(encoded[2].delta_line, 2);
    assert_eq!(encoded[2].delta_start, 5);
}

#[test]
fn encode_tokens_unsorted_input_is_normalized() {
    let tokens = vec![raw(3, 5, 2, 0), raw(1, 10, 4, 1), raw(1, 2, 3, 2)];
    let encoded = encode_tokens(tokens);
    assert_eq!(encoded.len(), 3);
    assert_eq!(encoded[0].delta_line, 1);
    assert_eq!(encoded[0].delta_start, 2);
    assert_eq!(encoded[0].length, 3);
}

#[test]
fn encode_tokens_empty_input_gives_nothing() {
    assert!(encode_tokens(Vec::new()).is_empty());
}

#[test]
fn decoding_encoded_tokens_gives_back_kept_tokens() {
    let raw = vec![
        RawSemanticToken { line: 2, start_col: 4, length: 3, token_type: 1, token_modifiers: 0 },
        RawSemanticToken { line: 0, start_col: 5, length: 2, token_type: 0, token_modifiers: 0 },
        RawSemanticToken { line: 2, start_col: 5, length: 1, token_type: 2, token_modifiers: 0 },
        RawSemanticToken { line: 2, start_col: 9, length: 0, token_type: 2, token_modifiers: 0 },
        RawSemanticToken { line: 2, start_col: 10, length: 2, token_type: 3, token_modifiers: 1 },
    ];
    let out = encode_tokens(raw);
    let mut line = 0u32;
    let mut col = 0u32;
    let mut decoded = Vec::new();
    for t in &out {
        if t.delta_line == 0 {
            col += t.delta_start;
        } else {
            line += t.delta_line;
            col = t.delta_start;
        }
        decoded.push((line, col, t.length, t.token_type));
    }
    assert_eq!(decoded, vec![(0, 5, 2, 0), (2, 4, 3, 1), (2, 10, 2, 3)]);
}
