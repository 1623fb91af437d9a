use zxx::ast::{AstNode, Param, Type, TypedValue};
use zxx::errors::Span;

fn samples() -> Vec<(TypedValue, Type)> {
    vec![
        (TypedValue::IdentVal("x".to_string()), Type::Reference),
        (TypedValue::StringVal("x".to_string()), Type::String),
        (TypedValue::IntVal(-3), Type::Int),
        (TypedValue::FloatVal("1.5".to_string()), Type::Float),
        (TypedValue::BoolVal(false), Type::Boolean),
        (TypedValue::NullVal, Type::Null),
    ]
}

#[test]
fn each_form_of_value_has_its_type() {
    for (value, expected) in samples() {
        assert_eq!(value.value_type(), expected);
        assert_ne!(value.value_type(), Type::Void);
    }
}

#[test]
fn type_goes_by_the_form_alone() {
    assert_eq!(TypedValue::IntVal(0).value_type(), TypedValue::IntVal(i64::MIN).value_type());
    assert_eq!(
        TypedValue::StringVal(String::new()).value_type(),
        TypedValue::StringVal("1".to_string()).value_type()
    );
    assert_ne!(
        TypedValue::StringVal("1".to_string()).value_type(),
        TypedValue::IntVal(1).value_type()
    );
    assert_ne!(
        TypedValue::IdentVal("null".to_string()).value_type(),
        TypedValue::NullVal.value_type()
    );
}

#[test]
fn reassignment_needs_mutability_and_the_same_type() {
    for (declared, _) in samples() {
        for (assigned, _) in samples() {
            let same = declared.value_type() == assigned.value_type();
            assert_eq!(assigned.may_replace(true, &declared), same);
            assert!(!assigned.may_replace(false, &declared));
        }
    }
    let one = TypedValue::IntVal(1);
    assert!(TypedValue::IntVal(2).may_replace(true, &one));
    assert!(!TypedValue::StringVal("s".to_string()).may_replace(true, &one));
    assert!(!TypedValue::IntVal(2).may_replace(false, &one));
}

#[test]
fn copied_value_is_equal() {
    for (value, _) in samples() {
        assert_eq!(value.clone(), value);
    }
}

#[test]
fn every_node_but_empty_carries_its_span() {
    let span = Span { start: 2, end: 9 };
    let block = || Box::new(AstNode::Block { span: Span { start: 4, end: 5 }, body: vec![] });
    let nodes = vec![
        AstNode::Document { span, file_name: "a".to_string(), body: block() },
        AstNode::Block { span, body: vec![AstNode::Empty] },
        AstNode::Identifier { span, name: "a".to_string() },
        AstNode::FunctionCall { span, name: "a".to_string(), param_list: vec![TypedValue::NullVal] },
        AstNode::FuncDeclaration {
            span,
            name: "a".to_string(),
            params: vec![Param { name: "p".to_string(), param_type: Type::Int }],
            returns: Type::Void,
            body: block(),
        },
        AstNode::VarDeclaration {
            span,
            name: "a".to_string(),
            is_mutable: true,
            is_static: false,
            value: TypedValue::IntVal(1),
        },
        AstNode::VarAssignment { span, name: "a".to_string(), new_value: TypedValue::IntVal(1) },
        AstNode::Return { span, value: None },
        AstNode::Conditional {
            span,
            condition: TypedValue::BoolVal(true),
            body: block(),
            otherwise: Box::new(AstNode::Empty),
        },
        AstNode::WhileLoop { span, condition: TypedValue::BoolVal(true), body: block() },
        AstNode::ForLoop { span, items: TypedValue::IdentVal("a".to_string()), body: block() },
    ];
    for node in &nodes {
        assert_eq!(node.span(), Some(span));
    }
    assert_eq!(AstNode::Empty.span(), None);
}
