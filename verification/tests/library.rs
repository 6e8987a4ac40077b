use ksp_cfg_formatter::linter::{lint_ast, try_lint_ast};
use ksp_cfg_formatter::parser::input::{Parsed, Src};
use ksp_cfg_formatter::parser::{
    parse, try_parse, AssignmentOperator, DocItem, Error, HasBlock, HasPredicate, Index, KeyVal,
    MatchType, NodeItem, Operator, Position, Range, Severity,
};
use ksp_cfg_formatter::server::{
    diagnostics_for_document, document_end, log_level_or_default, parse_log_level,
    parse_should_collapse, should_collapse_or_default, DocumentDataBase, LogLevel, Outgoing,
};
use ksp_cfg_formatter::transformer::{assignments_first, padding_width};
use ksp_cfg_formatter::{parse_to_ast, Formatter, Indentation, LineReturn};

fn tabs_formatter() -> Formatter {
    Formatter::new(Indentation::Tabs, Some(true), LineReturn::Identify)
}

#[test]
fn format_keeps_formatted_text() {
    let input = "PART\n{\n\tname = a\n\tMODULE\n\t{\n\t\tkey = val\n\t}\n}\n";
    let out = Formatter::new(Indentation::Tabs, Some(false), LineReturn::LF).format_text(input);
    assert_eq!(out, Ok(input.to_string()));
}

#[test]
fn format_reindents_with_spaces() {
    let input = "PART\n{\nname = a\n}\n";
    let out = Formatter::new(Indentation::Spaces(4), Some(false), LineReturn::LF).format_text(input);
    assert_eq!(out, Ok("PART\n{\n    name = a\n}\n".to_string()));
}

#[test]
fn format_collapses_short_node() {
    let input = "PART\n{\n\tname = a\n}\n";
    let out = tabs_formatter().format_text(input);
    assert_eq!(out, Ok("PART { name = a }\n".to_string()));
}

#[test]
fn format_keep_layout_expands_multiline_node() {
    let input = "PART\n{\n\tname = a\n}\n";
    let out = Formatter::new(Indentation::Tabs, None, LineReturn::LF).format_text(input);
    assert_eq!(out, Ok(input.to_string()));
    let one_line = "PART { name = a }\n";
    let out = Formatter::new(Indentation::Tabs, None, LineReturn::LF).format_text(one_line);
    assert_eq!(out, Ok(one_line.to_string()));
}

#[test]
fn format_identifies_crlf() {
    let input = "PART\r\n{\r\nname = a\r\nb = c\r\n}\r\n";
    let out = tabs_formatter().format_text(input);
    assert_eq!(out, Ok("PART\r\n{\r\n\tname = a\r\n\tb = c\r\n}\r\n".to_string()));
    let out = Formatter::new(Indentation::Tabs, Some(true), LineReturn::LF).format_text(input);
    assert_eq!(out, Ok("PART\n{\n\tname = a\n\tb = c\n}\n".to_string()));
}

#[test]
fn format_empty_node() {
    let out = tabs_formatter().format_text("PART {}\n");
    assert_eq!(out, Ok("PART {}\n".to_string()));
}

#[test]
fn format_reports_errors() {
    let input = "PART[abcde{}\n";
    let out = tabs_formatter().format_text(input);
    match out {
        Err(errors) => {
            assert_eq!(errors.len(), 1);
            assert_eq!(errors[0].message, "Expected closing `]`");
        }
        Ok(_) => panic!("expected errors"),
    }
}

#[test]
fn fail_silent_returns_input() {
    let input = "PART[abcde{}\n";
    let out = tabs_formatter().fail_silent().format_text(input);
    assert_eq!(out, Ok(input.to_string()));
}

#[test]
fn missing_closing_brace_is_reported() {
    let (_, errors) = parse("PART\n{\n\tkey = val\n");
    assert_eq!(errors.len(), 1);
    assert_eq!(errors[0].message, "Expected closing }");
    assert_eq!(errors[0].severity, Severity::Error);
}

#[test]
fn unreadable_top_level_line_is_reported() {
    let (doc, errors) = parse("key = val\n");
    assert_eq!(errors.len(), 1);
    assert_eq!(errors[0].message, "unexpected `key = val`");
    assert_eq!(errors[0].source, "key = val");
    assert!(matches!(doc.statements[0], DocItem::Error(_)));
}

#[test]
fn index_overflow_is_refused() {
    assert!(try_parse("@PART,99999999999 { a = b }\n").is_none());
    assert!(try_parse("@PART,12 { a = b }\n").is_some());
}

#[test]
fn node_parts_are_read() {
    let (doc, errors) = parse("@PART[a|b]:HAS[#mass[1]]:NEEDS[Mod]:FOR[Me],3 { %key = val }\n");
    assert!(errors.is_empty());
    match &doc.statements[0] {
        DocItem::Node(n) => {
            let n = &n.inner;
            assert!(n.top_level);
            assert_eq!(n.operator.as_ref().unwrap().inner, Operator::Edit);
            assert_eq!(n.identifier.inner, "PART");
            assert_eq!(n.name.as_ref().unwrap().inner, vec!["a".to_string(), "b".to_string()]);
            assert!(n.has.is_some());
            assert!(n.needs.is_some());
            assert!(n.pass.is_some());
            assert_eq!(n.index.as_ref().unwrap().inner, Index::Number(3));
            assert_eq!(n.node_name(), "@PART[a|b]:HAS[#mass[1]]:FOR[Me]:NEEDS[Mod],3");
            let kvs = n.iter_keyvals();
            assert_eq!(kvs.len(), 1);
            assert_eq!(kvs[0].inner.key.inner, "key");
            assert_eq!(kvs[0].inner.operator.as_ref().unwrap().inner, Operator::EditOrCreate);
            assert!(n.iter_nodes().is_empty());
        }
        _ => panic!("expected a node"),
    }
}

#[test]
fn extra_has_block_is_reported() {
    let (_, errors) = parse("@PART:HAS[#a]:HAS[#b] { x = y }\n");
    assert_eq!(errors.len(), 1);
    assert_eq!(errors[0].message, "Got extra HAS block");
    assert_eq!(errors[0].source, ":HAS[#b]");
}

#[test]
fn key_val_positions() {
    let s = Src::new("  key = value // note\n");
    match KeyVal::parse(&s, 2, s.len()) {
        Parsed::Done(end, kv, errors) => {
            assert_eq!(end, s.len());
            assert!(errors.is_empty());
            assert_eq!(kv.inner.key.inner, "key");
            assert_eq!(kv.inner.val.inner, "value");
            assert_eq!(kv.inner.assignment_operator.inner, AssignmentOperator::Assign);
            assert_eq!(kv.inner.comment.as_ref().unwrap().inner.text, " // note");
            assert_eq!(kv.inner.val.range, Range::new(1, 9, 1, 14));
            assert_eq!(kv.range, Range::new(1, 3, 2, 1));
        }
        _ => panic!("expected an assignment"),
    }
}

#[test]
fn lint_operator_below_top_level_without_one() {
    let (doc, errors) = parse("PART\n{\n\t@key = val\n}\n");
    assert!(errors.is_empty());
    let diags = lint_ast(&doc, None);
    assert_eq!(diags.len(), 2);
    assert_eq!(diags[0].message, "Key has operator, even though the top level does not!");
    assert_eq!(diags[0].severity, Some(Severity::Warning));
    assert_eq!(diags[1].severity, Some(Severity::Hint));
    assert_eq!(diags[1].range, Range::new(1, 1, 4, 2));
}

#[test]
fn lint_mm_syntax_without_operator() {
    let (doc, _) = parse("PART:HAS[#a] { x = y }\n");
    let diags = try_lint_ast(&doc, None).unwrap();
    assert_eq!(diags.len(), 1);
    assert_eq!(diags[0].message, "No operator, but MM is used. this is likely not correct");
    assert_eq!(diags[0].to_string(), "1:5-13: No operator, but MM is used. this is likely not correct");
}

#[test]
fn lint_empty_has_value() {
    let (doc, _) = parse("@PART:HAS[#a[]] { x = y }\n");
    let diags = lint_ast(&doc, None);
    assert_eq!(diags.len(), 1);
    assert_eq!(diags[0].message, "Expected value");
    assert_eq!(diags[0].severity, Some(Severity::Info));
}

#[test]
fn parse_to_ast_clean_and_dirty() {
    assert!(parse_to_ast("@PART { x = y }\n").is_ok());
    match parse_to_ast("PART { @x = y }\n") {
        Err((errors, diags)) => {
            assert!(errors.is_empty());
            assert_eq!(diags.len(), 2);
        }
        Ok(_) => panic!("expected diagnostics"),
    }
}

#[test]
fn assignments_are_moved_first() {
    let (doc, _) = parse("PART\n{\n\tA\n\t{\n\t}\n\t// about b\n\tb = c\n}\n");
    let doc = assignments_first(doc).ok().unwrap();
    match &doc.statements[0] {
        DocItem::Node(n) => {
            let block = &n.inner.block;
            assert_eq!(block.len(), 3);
            assert!(matches!(block[0], NodeItem::Comment(_)));
            assert!(matches!(block[1], NodeItem::KeyVal(_)));
            assert!(matches!(block[2], NodeItem::Node(_)));
        }
        _ => panic!("expected a node"),
    }
}

#[test]
fn assignments_first_refuses_trailing_comment() {
    let (doc, _) = parse("PART\n{\n\tb = c\n\t// last\n}\n");
    match assignments_first(doc) {
        Err(e) => assert_eq!(e.message, "Found Comment at end of node"),
        Ok(_) => panic!("expected an error"),
    }
}

#[test]
fn ranges_combine_when_overlapping() {
    let ranges = vec![Range::new(1, 5, 1, 9), Range::new(1, 1, 1, 6), Range::new(2, 1, 2, 2)];
    let combined = Range::combine_ranges(ranges);
    assert_eq!(combined, vec![Range::new(1, 1, 1, 9), Range::new(2, 1, 2, 2)]);
    assert_eq!(Range::new(1, 1, 1, 9).add(Range::new(0, 4, 1, 3)), Range::new(0, 4, 1, 9));
}

#[test]
fn range_and_error_text() {
    assert_eq!(Range::new(1, 2, 1, 5).to_string(), "1:2-5");
    assert_eq!(Range::new(1, 2, 3, 4).to_string(), "[1, 2] to [3, 4]");
    let e = Error {
        severity: Severity::Error,
        range: Range::new(2, 1, 2, 3),
        source: "ab".to_string(),
        message: "bad".to_string(),
        context: None,
    };
    assert_eq!(e.to_string(), "bad, found 'ab' at 2:1-3");
    assert_eq!(Position::new(3, 4).to_zero_based(), (2, 3));
    assert_eq!(Range::new(1, 2, 3, 4).to_start(), Range::new(1, 2, 1, 2));
    assert_eq!(Range::new(1, 2, 3, 4).to_end(), Range::new(3, 4, 3, 4));
}

#[test]
fn indentation_text() {
    assert_eq!(Indentation::Spaces(3).to_string(), "   ");
    assert_eq!(Indentation::Tabs.to_string(), "\t");
    assert_eq!(Indentation::from(Some(2)), Indentation::Spaces(2));
    assert_eq!(Indentation::from(None), Indentation::Tabs);
}

#[test]
fn outgoing_ids_count_up() {
    let mut out = Outgoing::new();
    assert_eq!(out.get_next_id(), 0);
    assert_eq!(out.get_next_id(), 1);
    assert_eq!(out.get_next_id(), 2);
}

#[test]
fn settings_values() {
    assert_eq!(parse_should_collapse("keep"), Some(None));
    assert_eq!(parse_should_collapse("collapse"), Some(Some(true)));
    assert_eq!(parse_should_collapse("expand"), Some(Some(false)));
    assert_eq!(parse_should_collapse("other"), None);
    assert_eq!(should_collapse_or_default("other"), Some(true));
    assert_eq!(parse_log_level("warning"), Some(LogLevel::Warn));
    assert_eq!(parse_log_level("loud"), None);
    assert_eq!(log_level_or_default("loud"), LogLevel::Info);
}

#[test]
fn document_end_counts_lines() {
    assert_eq!(document_end(""), Some((0, 0)));
    assert_eq!(document_end("ab"), Some((1, 2)));
    assert_eq!(document_end("ab\ncde"), Some((2, 3)));
    assert_eq!(document_end("ab\r\ncde\r\n"), Some((2, 3)));
    assert_eq!(document_end("ab\n\n"), Some((2, 0)));
}

#[test]
fn data_base_reads_what_was_written() {
    let mut db = DocumentDataBase::new();
    assert!(db.get("a").is_none());
    db.add_document_to_db("a", "one");
    db.add_document_to_db("b", "two");
    assert_eq!(db.get("a").unwrap(), "one");
    db.update_document_in_db("a", &vec!["x".to_string(), "y".to_string()]);
    assert_eq!(db.get("a").unwrap(), "xy");
    assert_eq!(db.get("b").unwrap(), "two");
    db.remove_document_from_db("a");
    assert!(db.get("a").is_none());
    assert_eq!(db.get("b").unwrap(), "two");
}

#[test]
fn diagnostics_include_context_hint() {
    let uri = url::Url::parse("file:///tmp/a.cfg").unwrap();
    let diags = diagnostics_for_document("PART[abcde{}\n", &uri).unwrap();
    assert_eq!(diags.len(), 3);
    assert_eq!(diags[0].message, "Expected closing `]`");
    assert_eq!(diags[2].message, "No operator, but MM is used. this is likely not correct");
    assert_eq!(diags[1].severity, Some(Severity::Hint));
    assert_eq!(diags[1].message, "Expected due to `[` found here");
    let related = diags[1].related_information.as_ref().unwrap();
    assert_eq!(related[0].message, "original diagnostic");
    assert_eq!(related[0].location.url.as_ref().unwrap().as_str(), "file:///tmp/a.cfg");
}

#[test]
fn has_key_value_sign_selects_match_type() {
    let s = Src::new(":HAS[#mass[<5],~cost[>10],#name[x]]");
    match HasBlock::parse(&s, 0, s.len()) {
        Parsed::Done(_, b, errs) => {
            assert!(errs.is_empty());
            let kinds: Vec<(String, MatchType)> = b
                .inner
                .predicates
                .iter()
                .map(|p| match &p.inner {
                    HasPredicate::KeyPredicate { value, match_type, .. } => {
                        (value.as_ref().unwrap().inner.clone(), *match_type)
                    }
                    _ => panic!("expected a key predicate"),
                })
                .collect();
            assert_eq!(
                kinds,
                vec![
                    ("5".to_string(), MatchType::LessThan),
                    ("10".to_string(), MatchType::GreaterThan),
                    ("x".to_string(), MatchType::Literal),
                ]
            );
            assert_eq!(b.inner.to_string(), ":HAS[#mass[<5],~cost[>10],#name[x]]");
        }
        _ => panic!("expected a HAS block"),
    }
}

#[test]
fn combine_ranges_ignores_order() {
    let a = vec![Range::new(3, 0, 3, 4), Range::new(0, 0, 0, 5), Range::new(0, 3, 1, 2), Range::new(5, 1, 5, 2)];
    let mut b = a.clone();
    b.reverse();
    let ca = Range::combine_ranges(a);
    assert_eq!(ca, Range::combine_ranges(b));
    assert_eq!(ca, vec![Range::new(0, 0, 1, 2), Range::new(3, 0, 3, 4), Range::new(5, 1, 5, 2)]);
}

#[test]
fn ranged_as_mut_keeps_the_range() {
    let r = Range::new(1, 2, 3, 4);
    let mut g = ksp_cfg_formatter::parser::Ranged::new(5u32, r);
    *g.as_mut() = 7;
    *g.as_mut() += 1;
    assert_eq!(*g.as_ref(), 8);
    assert_eq!(g.get_range(), r);
}

#[test]
fn padding_width_of_similar_keys() {
    assert_eq!(padding_width(&vec![3, 5, 4], &vec![true, true]), Some(5));
    assert_eq!(padding_width(&vec![3, 8], &vec![true]), None);
    assert_eq!(padding_width(&vec![3, 4], &vec![false]), None);
    assert_eq!(padding_width(&vec![3], &vec![]), None);
    assert_eq!(padding_width(&vec![], &vec![]), None);
}

#[test]
fn no_errors_means_no_error_lines() {
    let (doc, errors) = parse("PART\n{\n\tkey = val\n}\n");
    assert!(errors.is_empty());
    assert!(doc.statements.iter().all(|s| !matches!(s, DocItem::Error(_))));
    let (doc, errors) = parse("PART\n{\n\tkey = val\n\t}}\n}\n");
    let has_error_item = doc.statements.iter().any(|s| match s {
        DocItem::Error(_) => true,
        DocItem::Node(n) => n.inner.block.iter().any(|i| matches!(i, NodeItem::Error(_))),
        _ => false,
    });
    assert!(!has_error_item || !errors.is_empty());
}
