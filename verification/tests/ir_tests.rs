use sysy::ast::TypeName;
use sysy::ir::{format_semantic_type, semantic_from_type};
use sysy::semantic::SemanticType;

#[test]
fn format_scalar_types() {
    assert_eq!(format_semantic_type(&SemanticType::Int), "int");
    assert_eq!(format_semantic_type(&SemanticType::Float), "float");
    assert_eq!(format_semantic_type(&SemanticType::Void), "void");
    assert_eq!(format_semantic_type(&SemanticType::Error), "error");
}

#[test]
fn format_array_types_show_rank() {
    let t = SemanticType::Array { element: TypeName::Float, rank: 2 };
    assert_eq!(format_semantic_type(&t), "float[rank=2]");
    let t = SemanticType::Array { element: TypeName::Int, rank: 12 };
    assert_eq!(format_semantic_type(&t), "int[rank=12]");
}

#[test]
fn format_function_types() {
    let t = SemanticType::Function {
        return_type: TypeName::Void,
        params: vec![SemanticType::Int, SemanticType::Array { element: TypeName::Int, rank: 1 }],
    };
    assert_eq!(format_semantic_type(&t), "fn(int, int[rank=1]) -> void");
    let t = SemanticType::Function { return_type: TypeName::Int, params: vec![] };
    assert_eq!(format_semantic_type(&t), "fn() -> int");
    let nested = SemanticType::Function {
        return_type: TypeName::Float,
        params: vec![SemanticType::Function { return_type: TypeName::Int, params: vec![SemanticType::Float] }],
    };
    assert_eq!(format_semantic_type(&nested), "fn(fn(float) -> int) -> float");
}

#[test]
fn semantic_types_of_type_keywords() {
    assert!(matches!(semantic_from_type(TypeName::Int), SemanticType::Int));
    assert!(matches!(semantic_from_type(TypeName::Float), SemanticType::Float));
    assert!(matches!(semantic_from_type(TypeName::Void), SemanticType::Void));
}

#[test]
fn semantic_types_compare_structurally() {
    let a = SemanticType::Function {
        return_type: TypeName::Void,
        params: vec![SemanticType::Int, SemanticType::Array { element: TypeName::Float, rank: 2 }],
    };
    let b = a.clone();
    assert_eq!(a, b);
    let c = SemanticType::Function {
        return_type: TypeName::Void,
        params: vec![SemanticType::Int, SemanticType::Array { element: TypeName::Float, rank: 3 }],
    };
    assert_ne!(a, c);
    assert_ne!(SemanticType::Int, SemanticType::Float);
    assert_eq!(semantic_from_type(TypeName::Int), SemanticType::Int);
}
