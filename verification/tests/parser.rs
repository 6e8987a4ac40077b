use ksp_cfg_formatter::parser::input::{Parsed, Src};
use ksp_cfg_formatter::parser::{
    parse, ASTPrint, Document, HasBlock, KeyVal, NeedsBlock, Node, ParserState, Path, Position, Range, Ranged,
    Severity,
};

fn src(text: &str) -> Src {
    Src::new(text)
}

#[test]
fn test_ranges() {
    let mut ranges = vec![Range::new(0, 0, 0, 5), Range::new(0, 10, 0, 15)];
    ranges.sort();
    let ranges_new = Range::combine_ranges(ranges.clone());
    assert_eq!(ranges_new, ranges);
}

#[test]
fn test_doc() {
    let input = "node { key = val }\r\n";
    let s = src(input);
    match Document::parse(&s, 0) {
        Parsed::Done(_, it, _) => assert_eq!(input, it.inner.ast_print(0, "\t", "\r\n", Some(true))),
        _ => panic!("document did not parse"),
    }
}

#[test]
fn test_doc_2() {
    let input = "node\r\n{\r\n\tkey = val\r\n\tkey = val\r\n}\r\n";
    let s = src(input);
    match Document::parse(&s, 0) {
        Parsed::Done(_, it, _) => assert_eq!(input, it.inner.ast_print(0, "\t", "\r\n", Some(true))),
        _ => panic!("document did not parse"),
    }
}

#[test]
fn test_doc_3() {
    let input = "//1\r\n\r\n//2\r\n";
    let s = src(input);
    match Document::parse(&s, 0) {
        Parsed::Done(_, it, _) => assert_eq!(input, it.inner.ast_print(0, "\t", "\r\n", Some(true))),
        _ => panic!("document did not parse"),
    }
}

#[test]
fn test_has() {
    let input = ":HAS[#key[value]]";
    let s = src(input);
    match HasBlock::parse(&s, 0, s.len()) {
        Parsed::Done(_, it, _) => assert_eq!(input, it.inner.to_string()),
        _ => panic!("HAS block did not parse"),
    }
}

#[test]
fn test_key_val() {
    let input = "key = val\r\n";
    let s = src(input);
    match KeyVal::parse(&s, 0, s.len()) {
        Parsed::Done(_, it, _) => assert_eq!(input, it.inner.ast_print(0, "\t", "\r\n", Some(false))),
        _ => panic!("assignment did not parse"),
    }
}

#[test]
fn test_key_val_2() {
    let input = "*@PART[RO-M55]/deleteMe = true\r\n";
    let s = src(input);
    match KeyVal::parse(&s, 0, s.len()) {
        Parsed::Done(_, it, _) => assert_eq!(input, it.inner.ast_print(0, "\t", "\r\n", Some(false))),
        _ => panic!("assignment did not parse"),
    }
}

#[test]
fn test_needs() {
    let input = ":NEEDS[mod]";
    let s = src(input);
    match NeedsBlock::parse(&s, 0, s.len()) {
        Parsed::Done(_, it, errors) => {
            assert_eq!(input, it.inner.to_string());
            assert!(errors.is_empty());
        }
        _ => panic!("NEEDS block did not parse"),
    }
}

#[test]
fn test_node() {
    let input = "node { key = val }\r\n";
    let s = src(input);
    match Node::parse(&s, 0, s.len(), ParserState::default()) {
        Parsed::Done(_, it, _) => assert_eq!(input, it.inner.ast_print(0, "\t", "\r\n", Some(true))),
        _ => panic!("node did not parse"),
    }
}

#[test]
fn test_node_2() {
    let input = "node\r\n{\r\n\tkey = val\r\n\tkey = val\r\n}\r\n";
    let s = src(input);
    match Node::parse(&s, 0, s.len(), ParserState::default()) {
        Parsed::Done(_, it, _) => assert_eq!(input, it.inner.ast_print(0, "\t", "\r\n", Some(true))),
        _ => panic!("node did not parse"),
    }
}

#[test]
fn test_path() {
    let input = "@PART[RO-M55]/";
    let s = src(input);
    let (it, _, _) = Path::parse(&s, 0, s.len());
    assert_eq!(input, it.inner.to_string());
}

#[test]
fn missing_closing_bracket() {
    let text = "PART[abcde{}\n";
    let res = parse(text).1;
    let exp_err = vec![ksp_cfg_formatter::parser::Error {
        severity: Severity::Error,
        message: "Expected closing `]`".to_string(),
        range: Range { start: Position { line: 1, col: 11 }, end: Position { line: 1, col: 11 } },
        source: "".to_string(),
        context: Some(Ranged::new(
            "Expected due to `[` found here".to_string(),
            Range { start: Position { line: 1, col: 5 }, end: Position { line: 1, col: 6 } },
        )),
    }];
    assert_eq!(res, exp_err);
}
