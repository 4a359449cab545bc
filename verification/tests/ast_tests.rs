use cv_front::ast::{BinaryOperator, Expression, Literal, Type, UnaryOperator};

#[test]
fn test_is_lvalue() {
    assert!(Expression::Identifier("x".to_string()).is_lvalue());
    assert!(Expression::RecordAccess {
        record: Box::new(Expression::Identifier("r".to_string())),
        field: "f".to_string(),
    }
    .is_lvalue());
    assert!(Expression::IndexAccess {
        collection: Box::new(Expression::Identifier("a".to_string())),
        index: Box::new(Expression::Literal(Literal::Integer(0))),
    }
    .is_lvalue());
    assert!(
        Expression::Dereference(Box::new(Expression::Identifier("p".to_string()))).is_lvalue()
    );
    assert!(!Expression::Literal(Literal::Integer(1)).is_lvalue());
}

#[test]
fn test_requires_semicolon() {
    assert!(Expression::Identifier("x".to_string()).requires_semicolon());
    assert!(Expression::Literal(Literal::Boolean(true)).requires_semicolon());
    assert!(!Expression::Block {
        statements: vec![],
        final_expression: None,
    }
    .requires_semicolon());
    assert!(!Expression::Loop {
        body: Box::new(Expression::Block {
            statements: vec![],
            final_expression: None,
        }),
    }
    .requires_semicolon());
    assert!(!Expression::If {
        condition: Box::new(Expression::Literal(Literal::Boolean(true))),
        then_branch: Box::new(Expression::Literal(Literal::Integer(1))),
        else_branch: None,
    }
    .requires_semicolon());
}

#[test]
fn test_type_to_text_simple() {
    assert_eq!(Type::I32.to_text(), "i32");
    assert_eq!(Type::USize.to_text(), "usize");
    assert_eq!(Type::Bool.to_text(), "bool");
    assert_eq!(Type::String.to_text(), "string");
    assert_eq!(Type::Inferred.to_text(), "_");
    assert_eq!(Type::Named("Point".to_string()).to_text(), "Point");
}

#[test]
fn test_type_to_text_compound() {
    let generic = Type::Generic {
        name: "map".to_string(),
        parameters: vec![Type::String, Type::I64],
    };
    assert_eq!(generic.to_text(), "map<string, i64>");

    let reference = Type::Reference {
        is_mutable: true,
        ref_type: Box::new(Type::U8),
    };
    assert_eq!(reference.to_text(), "u8&@");

    let list = Type::ArrayList(Box::new(Type::Char));
    assert_eq!(list.to_text(), "arrayList<char>");

    let array = Type::FixedArray {
        element_type: Box::new(Type::F64),
        size: 128,
    };
    assert_eq!(array.to_text(), "fixedArray<f64, 128>");
}

#[test]
fn test_type_to_text_function() {
    let with_return = Type::Function {
        param_types: vec![Type::I32, Type::U64],
        return_type: Some(Box::new(Type::Bool)),
    };
    assert_eq!(with_return.to_text(), "fn(i32, u64) -> bool");

    let without_return = Type::Function {
        param_types: vec![],
        return_type: None,
    };
    assert_eq!(without_return.to_text(), "fn()");
}

#[test]
fn test_binary_operator_to_text() {
    assert_eq!(BinaryOperator::Add.to_text(), "+");
    assert_eq!(BinaryOperator::And.to_text(), "&&");
    assert_eq!(BinaryOperator::NotEqual.to_text(), "!=");
    assert_eq!(BinaryOperator::AddAssign.to_text(), "+=");
    assert_eq!(BinaryOperator::ModulusAssign.to_text(), "%=");
}

#[test]
fn test_unary_operator_to_text() {
    assert_eq!(UnaryOperator::Not.to_text(), "!");
    assert_eq!(UnaryOperator::Negate.to_text(), "-");
    assert_eq!(UnaryOperator::MutableReference.to_text(), "&@");
    assert_eq!(UnaryOperator::Dereference.to_text(), "*");
}
