use calculator::expr::BinaryOperator;
use calculator::expr_writer::{
    literal_label, operation_label, unbound_label, write_expr_tree, Diagram,
};
use calculator::highlighter::{ArithmeticHighlighter, Category, Span};

fn leaf(label: &str) -> Diagram {
    Diagram::Leaf { label: label.to_string() }
}

fn branch(label: &str, lhs: Diagram, rhs: Diagram) -> Diagram {
    Diagram::Branch { label: label.to_string(), lhs: Box::new(lhs), rhs: Box::new(rhs) }
}

#[test]
fn labels() {
    assert_eq!(literal_label("10", None), "10");
    assert_eq!(literal_label("10", Some(&"a".to_string())), "10 (a)");
    assert_eq!(unbound_label(&"c".to_string()), "c <- unbound variable");
    assert_eq!(operation_label("13", BinaryOperator::Add), "13 = +");
    assert_eq!(operation_label("???", BinaryOperator::Power), "??? = ^");
}

#[test]
fn single_leaf() {
    assert_eq!(write_expr_tree(&leaf("7")), vec!["7".to_string()]);
}

#[test]
fn tree_of_depth_two() {
    // 1 + 4 * 3
    let d = branch("13 = +", leaf("1"), branch("12 = *", leaf("4"), leaf("3")));
    let lines = write_expr_tree(&d);
    assert_eq!(
        lines,
        vec![
            "13 = +".to_string(),
            "     ├─ 1".to_string(),
            "     └─ 12 = *".to_string(),
            "             ├─ 4".to_string(),
            "             └─ 3".to_string(),
        ]
    );
}

#[test]
fn open_column_continues_through_left_subtree() {
    let d = branch("3 = +", branch("2 = *", leaf("1"), leaf("2")), leaf("1"));
    let lines = write_expr_tree(&d);
    assert_eq!(
        lines,
        vec![
            "3 = +".to_string(),
            "    ├─ 2 = *".to_string(),
            "    │      ├─ 1".to_string(),
            "    │      └─ 2".to_string(),
            "    └─ 1".to_string(),
        ]
    );
}

#[test]
fn highlight_spans() {
    let h = ArithmeticHighlighter;
    assert_eq!(
        h.highlight("a+1"),
        vec![
            Span { start: 0, end: 1, category: Category::Variable },
            Span { start: 1, end: 2, category: Category::Operator },
            Span { start: 2, end: 3, category: Category::Number },
        ]
    );
    assert_eq!(
        h.highlight("1 $"),
        vec![Span { start: 0, end: 3, category: Category::Error }]
    );
}
