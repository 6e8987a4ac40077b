use ksp_cfg_formatter::parser::{
    ASTPrint, AssignmentOperator, Comment, MatchType, Operator, OperatorParseError, ParseAssignmentError,
    ParserState, PathStart,
};
use ksp_cfg_formatter::printer::has::{HasBlock, HasBlockError, Predicate};
use ksp_cfg_formatter::printer::needs::{ModClause, NeedsBlock, NeedsBlockError};
use ksp_cfg_formatter::printer::pass::Pass;
use ksp_cfg_formatter::printer::path::{Path, PathSegment};
use ksp_cfg_formatter::printer::{GrammarPair, Rule};

fn pair(rule: Rule, text: &str, inner: Vec<GrammarPair>) -> GrammarPair {
    GrammarPair { rule, text: text.to_string(), inner }
}

fn leaf(rule: Rule, text: &str) -> GrammarPair {
    pair(rule, text, vec![])
}

#[test]
fn node_predicate_from_pair_prints_back() {
    let key = pair(Rule::HasBlockPart, "#mass", vec![leaf(Rule::Identifier, "mass")]);
    let block = pair(Rule::HasBlock, ":HAS[#mass]", vec![key]);
    let p = pair(
        Rule::HasBlockPart,
        "@PART[x]:HAS[#mass]",
        vec![leaf(Rule::Identifier, "PART"), leaf(Rule::HasNodeName, "[x]"), block],
    );
    let pred = Predicate::try_from_pair(&p).unwrap();
    match &pred {
        Predicate::NodePredicate { negated, node_type, name, has_block } => {
            assert!(!negated);
            assert_eq!(node_type, "PART");
            assert_eq!(name.as_deref(), Some("[x]"));
            assert_eq!(has_block.as_ref().unwrap().predicates.len(), 1);
        }
        _ => panic!("expected a node predicate"),
    }
    assert_eq!(pred.to_string(), "@PART[x]:HAS[#mass]");
}

#[test]
fn key_predicate_takes_comparison_from_value() {
    let p = pair(
        Rule::HasBlockPart,
        "~mass[<5]",
        vec![leaf(Rule::Identifier, "mass"), leaf(Rule::HasValue, "<5")],
    );
    let pred = Predicate::try_from_pair(&p).unwrap();
    assert_eq!(
        pred,
        Predicate::KeyPredicate {
            negated: true,
            key: "mass".to_string(),
            value: Some("5".to_string()),
            match_type: MatchType::LessThan,
        }
    );
    assert_eq!(pred.to_string(), "~mass[<5]");
    let q = pair(Rule::HasBlockPart, "#a[>2]", vec![leaf(Rule::Identifier, "a"), leaf(Rule::HasValue, ">2")]);
    assert_eq!(Predicate::try_from_pair(&q).unwrap().to_string(), "#a[>2]");
}

#[test]
fn predicate_errors_hold_the_text() {
    let p = leaf(Rule::HasBlockPart, "xyz");
    assert_eq!(Predicate::try_from_pair(&p), Err(HasBlockError { text: "xyz".to_string() }));
    let q = pair(Rule::HasBlockPart, "@PART", vec![leaf(Rule::Value, "v")]);
    assert_eq!(Predicate::try_from_pair(&q), Err(HasBlockError { text: "v".to_string() }));
}

#[test]
fn has_block_from_pair() {
    let b = pair(
        Rule::HasBlock,
        ":HAS[#a,!B]",
        vec![
            pair(Rule::HasBlockPart, "#a", vec![leaf(Rule::Identifier, "a")]),
            pair(Rule::HasBlockPart, "!B", vec![leaf(Rule::Identifier, "B")]),
        ],
    );
    let block = HasBlock::try_from_pair(&b).unwrap();
    assert_eq!(block.to_string(), ":HAS[#a,!B]");
    assert_eq!(HasBlock { predicates: vec![] }.to_string(), "");
}

#[test]
fn path_from_pair_prints_back() {
    let p = pair(
        Rule::Path,
        "@PART/../",
        vec![
            pair(Rule::PathSegment, "PART", vec![leaf(Rule::Identifier, "PART")]),
            leaf(Rule::PathSegment, ".."),
        ],
    );
    let path = Path::try_from_pair(&p);
    assert_eq!(path.start, Some(PathStart::TopLevel));
    assert_eq!(
        path.segments,
        vec![PathSegment::NodeName { node: "PART".to_string(), name: None, index: None }, PathSegment::DotDot]
    );
    assert_eq!(path.to_string(), "@PART/../");
    let seg = PathSegment::NodeName { node: "A".to_string(), name: Some("[b]".to_string()), index: Some(-2) };
    assert_eq!(seg.to_string(), "A[b]-2/");
}

#[test]
fn needs_block_from_pair_prints_back() {
    let m = |negated: bool, name: &str| {
        let mut inner = vec![];
        if negated {
            inner.push(leaf(Rule::Negation, "!"));
        }
        inner.push(leaf(Rule::ModName, name));
        pair(Rule::NeedsMod, name, inner)
    };
    let p = pair(
        Rule::NeedsBlock,
        ":NEEDS[!A|B,C]",
        vec![
            pair(Rule::ModOrClause, "!A|B", vec![m(true, "A"), m(false, "B")]),
            pair(Rule::ModOrClause, "C", vec![m(false, "C")]),
        ],
    );
    let block = NeedsBlock::try_from_pair(&p).unwrap();
    assert_eq!(block.or_clauses.len(), 2);
    assert_eq!(block.to_string(), ":NEEDS[!A|B,C]");
}

#[test]
fn mod_clause_with_unexpected_rule_is_an_error() {
    let p = pair(Rule::NeedsMod, "A", vec![leaf(Rule::Identifier, "A")]);
    assert_eq!(
        ModClause::try_from_pair(&p),
        Err(NeedsBlockError { text: "Got unexpected rule".to_string() })
    );
}

#[test]
fn pass_from_pair() {
    let p = pair(Rule::PassBlock, ":FOR[Mod]", vec![pair(Rule::ForPass, ":FOR[Mod]", vec![leaf(Rule::ModName, "Mod")])]);
    let pass = Pass::try_from_pair(&p);
    assert_eq!(pass, Pass::For("Mod".to_string()));
    assert_eq!(pass.to_string(), ":FOR[Mod]");
    let first = pair(Rule::PassBlock, ":FIRST", vec![leaf(Rule::FirstPassBlock, ":FIRST")]);
    assert_eq!(Pass::try_from_pair(&first), Pass::First);
    assert_eq!(Pass::Final.to_string(), "FINAL");
    assert_eq!(Pass::After("X".to_string()).to_string(), ":AFTER[X]");
    assert_eq!(Pass::Default.to_string(), "");
}

#[test]
fn operator_from_text() {
    assert_eq!(Operator::try_from_text(""), Ok(Operator::NoOperator));
    assert_eq!(Operator::try_from_text("@"), Ok(Operator::Edit));
    assert_eq!(Operator::try_from_text("|"), Ok(Operator::Rename));
    assert_eq!(Operator::try_from_text("@@"), Err(OperatorParseError { text: "@@".to_string() }));
    assert_eq!(Operator::try_from_text("x"), Err(OperatorParseError { text: "x".to_string() }));
    for op in [Operator::Copy, Operator::Delete, Operator::DeleteAlt, Operator::EditOrCreate] {
        assert_eq!(Operator::try_from_text(&op.to_string()), Ok(op));
    }
}

#[test]
fn assignment_operator_from_text() {
    assert_eq!(AssignmentOperator::try_from_text("="), Ok(AssignmentOperator::Assign));
    assert_eq!(AssignmentOperator::try_from_text("*="), Ok(AssignmentOperator::Multiply));
    assert_eq!(AssignmentOperator::try_from_text("^="), Ok(AssignmentOperator::RegexReplace));
    assert_eq!(AssignmentOperator::try_from_text("=="), Err(ParseAssignmentError));
    assert_eq!(AssignmentOperator::try_from_text(""), Err(ParseAssignmentError));
    let op = AssignmentOperator::Power;
    assert_eq!(AssignmentOperator::try_from_text(&op.to_string()), Ok(op));
}

#[test]
fn parser_state_starts_on_top_level() {
    assert!(ParserState::default().top_level);
}

#[test]
fn comment_is_printed_indented() {
    let c = Comment { text: "// hi".to_string() };
    assert_eq!(c.ast_print(2, "\t", "\n", None), "\t\t// hi\n");
}
