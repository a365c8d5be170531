use lish::compiler::compile_string;
use lish::object::Node;
use lish::object::node_display;
use lish::parser::ParserError;
use lish::parser::parse_u64;
use lish::strutil::u64_to_dec;

fn program_text(src: &str) -> String {
    let prog = compile_string(src, "<test>").expect("program should parse");
    let forms = prog.to_vec();
    let mut out = String::new();
    for (i, f) in forms.iter().enumerate() {
        if i > 0 {
            out.push(' ');
        }
        out.push_str(&node_display(f));
    }
    out
}

#[test]
fn parses_decimal_and_hex_numbers() {
    assert_eq!(parse_u64("0"), Some(0));
    assert_eq!(parse_u64("12345"), Some(12345));
    assert_eq!(parse_u64("+7"), Some(7));
    assert_eq!(parse_u64("0x1f"), Some(31));
    assert_eq!(parse_u64("0xFF"), Some(255));
    assert_eq!(parse_u64("0x0x10"), Some(16));
    assert_eq!(parse_u64("18446744073709551615"), Some(u64::MAX));
    assert_eq!(parse_u64("18446744073709551616"), None);
    assert_eq!(parse_u64(""), None);
    assert_eq!(parse_u64("12a"), None);
    assert_eq!(parse_u64("0xg"), None);
    assert_eq!(parse_u64("abc"), None);
}

#[test]
fn decimal_rendering_round_trips() {
    for n in [0u64, 1, 9, 10, 255, 12345, u64::MAX] {
        let s = u64_to_dec(n);
        assert_eq!(parse_u64(&s), Some(n));
    }
    assert_eq!(u64_to_dec(0), "0");
    assert_eq!(u64_to_dec(907), "907");
}

#[test]
fn canonical_text_round_trips() {
    // canonical parenthesized forms come back unchanged, whitespace normalized
    for src in ["(PWD)", "(DEFVAR X 5)", "(A (B 2 \"t w o\") ())", "(CALL \"echo\" \"hi\")"] {
        assert_eq!(program_text(src), src);
    }
    assert_eq!(program_text("(  A\n  1 )"), "(A 1)");
}

#[test]
fn symbols_are_case_normalized() {
    assert_eq!(program_text("(pwd)"), "(PWD)");
}

#[test]
fn comments_are_skipped_by_the_parser() {
    let text = program_text("; comment\n(PWD)");
    assert_eq!(text, "(PWD)");
    let text2 = program_text("(A ; inner\n B)");
    assert_eq!(text2, "(A B)");
}

#[test]
fn top_level_atom_is_invalid_code() {
    match compile_string("pwd", "<test>") {
        Err(ParserError::InvalidCode(msg)) => {
            assert!(msg.contains("Unknown token"));
        },
        _ => panic!("expected an invalid-code error"),
    }
}

#[test]
fn unclosed_list_is_an_expected_token_error() {
    match compile_string("(a b", "<test>") {
        Err(ParserError::ExpectedToken(_)) => {},
        _ => panic!("expected an expected-token error"),
    }
}

#[test]
fn quote_inside_list_is_an_expected_token_error() {
    match compile_string("(a 'b)", "<test>") {
        Err(ParserError::ExpectedToken(msg)) => {
            assert!(msg.contains("QUOTE"));
        },
        _ => panic!("expected an expected-token error"),
    }
}

#[test]
fn bad_number_is_invalid_code() {
    match compile_string("(a 0x)", "<test>") {
        Err(ParserError::InvalidCode(msg)) => {
            assert!(msg.contains("Failed parsing number"));
        },
        _ => panic!("expected an invalid-code error"),
    }
}

#[test]
fn empty_source_is_an_empty_program() {
    let prog = compile_string("", "<test>").expect("empty source parses");
    assert_eq!(prog.to_vec().len(), 0);
}

#[test]
fn numbers_parse_inside_forms() {
    let prog = compile_string("(N 0x10 7)", "<test>").expect("parses");
    let forms = prog.to_vec();
    match &forms[0] {
        Node::List(l) => {
            let elems = l.to_vec();
            match (&elems[1], &elems[2]) {
                (Node::Number(a), Node::Number(b)) => {
                    assert_eq!(*a, 16);
                    assert_eq!(*b, 7);
                },
                _ => panic!("expected numbers"),
            }
        },
        _ => panic!("expected a list"),
    }
}
