use wavefront::lexing::split_parts;
use wavefront::lexing::tokenize;
use wavefront::numeric::is_float_token;
use wavefront::numeric::parse_index;

#[test]
fn index_exact_values() {
    assert_eq!(parse_index(b"0"), Some(0));
    assert_eq!(parse_index(b"1"), Some(1));
    assert_eq!(parse_index(b"007"), Some(7));
    assert_eq!(parse_index(b"65535"), Some(65535));
    assert_eq!(parse_index(b"65536"), None);
    assert_eq!(parse_index(b"99999999999999999999"), None);
    assert_eq!(parse_index(b""), None);
    assert_eq!(parse_index(b"12a"), None);
    assert_eq!(parse_index(b"+1"), None);
    assert_eq!(parse_index(b"-1"), None);
}

#[test]
fn float_tokens_accepted() {
    for tok in [
        "1", "12", "1.", "1.5", ".5", "0.0", "-1", "+1", "-1.5", "+.25", "1e5", "1E5", "1e+5",
        "1.25e-10", "-12.e4", "3E0",
    ] {
        assert!(is_float_token(tok.as_bytes()), "{tok} should be accepted");
    }
}

#[test]
fn float_tokens_rejected() {
    for tok in [
        "", ".", "+", "-", "+.", "1.2.3", "e5", "1e", "1e+", "1ee5", "abc", "--1", "1.5f", " 1",
        "1 ", "1e5.0", "0x1",
    ] {
        assert!(!is_float_token(tok.as_bytes()), "{tok} should be rejected");
    }
}

#[test]
fn tokenize_collapses_whitespace() {
    let toks = tokenize(b"  v  1\t2   3 ");
    assert_eq!(toks.len(), 4);
    assert_eq!(toks[0], b"v".to_vec());
    assert_eq!(toks[1], b"1".to_vec());
    assert_eq!(toks[2], b"2".to_vec());
    assert_eq!(toks[3], b"3".to_vec());
    assert_eq!(tokenize(b"").len(), 0);
    assert_eq!(tokenize(b" \t ").len(), 0);
}

#[test]
fn split_keeps_empty_fields() {
    let parts = split_parts(b"1//3", b'/');
    assert_eq!(parts.len(), 3);
    assert_eq!(parts[0], b"1".to_vec());
    assert_eq!(parts[1], b"".to_vec());
    assert_eq!(parts[2], b"3".to_vec());
    assert_eq!(split_parts(b"", b'/').len(), 1);
    assert_eq!(split_parts(b"/", b'/').len(), 2);
    assert_eq!(split_parts(b"abc", b'/'), vec![b"abc".to_vec()]);
}
