//! Textual forms of semantic types used by the intermediate representation
//! and the code generator.

use vstd::prelude::*;
use crate::ast::TypeName;
use crate::analyzer::{scalar_type, type_name_str};
use crate::semantic::{
    SemanticType, SpecType, append_decimal, decimal, law_decimal, lemma_types_view_index,
    lemma_types_view_len, numeral_value, types_view,
};

verus! {

/// The text of a semantic type in the intermediate representation: arrays
/// show their element type and rank, functions their parameter types.
pub open spec fn type_text(t: SpecType) -> Seq<char>
    decreases t,
{
    match t {
        SpecType::Int => "int"@,
        SpecType::Float => "float"@,
        SpecType::Void => "void"@,
        SpecType::Array { element, rank } => type_name_str(element) + "[rank="@ + decimal(rank as nat) + "]"@,
        SpecType::Function { return_type, params } => "fn("@ + types_text(params) + ") -> "@
            + type_name_str(return_type),
        SpecType::Error => "error"@,
    }
}

/// The texts of `ps` separated by ", ".
pub open spec fn types_text(ps: Seq<SpecType>) -> Seq<char>
    decreases ps,
{
    if ps.len() == 0 {
        seq![]
    } else if ps.len() == 1 {
        type_text(ps[0])
    } else {
        types_text(ps.drop_last()) + ", "@ + type_text(ps.last())
    }
}

/// The text of an array type is its element keyword, `[rank=`, the rank as a
/// decimal numeral and `]`; the scalar and error types are their keywords.
pub proof fn law_type_text(element: TypeName, rank: usize)
    ensures
        type_text(SpecType::Array { element, rank }) == type_name_str(element) + "[rank="@ + decimal(rank as nat) + "]"@,
        numeral_value(decimal(rank as nat)) == rank,
        forall|i: int| 0 <= i < decimal(rank as nat).len() ==> 48 <= #[trigger] decimal(rank as nat)[i] as int <= 57,
        element == TypeName::Int ==> type_name_str(element) == "int"@,
        element == TypeName::Float ==> type_name_str(element) == "float"@,
        element == TypeName::Void ==> type_name_str(element) == "void"@,
        type_text(SpecType::Int) == "int"@,
        type_text(SpecType::Float) == "float"@,
        type_text(SpecType::Void) == "void"@,
        type_text(SpecType::Error) == "error"@,
{
    law_decimal(rank as nat);
}

/// The keyword that names a base type.
pub fn format_type_name(ty: TypeName) -> (r: &'static str)
    ensures
        r@ == type_name_str(ty),
{
    match ty {
        TypeName::Int => "int",
        TypeName::Float => "float",
        TypeName::Void => "void",
    }
}

/// Formats a semantic type as the intermediate representation shows it.
#[verifier::loop_isolation(false)]
pub fn format_semantic_type(ty: &SemanticType) -> (r: String)
    ensures
        r@ == type_text(ty@),
    decreases ty,
{
    proof {
        reveal(types_view);
    }
    match ty {
        SemanticType::Int => String::from_str("int"),
        SemanticType::Float => String::from_str("float"),
        SemanticType::Void => String::from_str("void"),
        SemanticType::Array { element, rank } => {
            let mut s = String::from_str(format_type_name(*element));
            s.append("[rank=");
            append_decimal(&mut s, *rank);
            s.append("]");
            proof {
                assert(s@ =~= type_text(ty@));
            }
            s
        },
        SemanticType::Function { return_type, params } => {
            let ghost ps = types_view(params@);
            proof {
                lemma_types_view_len(params@);
            }
            let mut s = String::from_str("fn(");
            let mut i: usize = 0;
            while i < params.len()
                invariant
                    i <= params.len(),
                    ps == types_view(params@),
                    ps.len() == params.len(),
                    s@ == "fn("@ + types_text(ps.take(i as int)),
                decreases params.len() - i,
            {
                if i > 0 {
                    s.append(", ");
                }
                proof {
                    assert(decreases_to!(ty => params@[i as int]));
                }
                let p = format_semantic_type(&params[i]);
                s.append(p.as_str());
                proof {
                    lemma_types_view_index(params@, i as int);
                    let t1 = ps.take(i as int + 1);
                    assert(t1.drop_last() =~= ps.take(i as int));
                    assert(t1.last() == ps[i as int]);
                    if i == 0 {
                        assert(ps.take(0) =~= Seq::<SpecType>::empty());
                        assert(types_text(t1) == type_text(ps[0]));
                    } else {
                        assert(types_text(t1) == types_text(ps.take(i as int)) + ", "@ + type_text(ps[i as int]));
                    }
                    assert(s@ =~= "fn("@ + types_text(t1));
                }
                i = i + 1;
            }
            s.append(") -> ");
            s.append(format_type_name(*return_type));
            proof {
                assert(ps.take(params.len() as int) =~= ps);
                assert(s@ =~= type_text(ty@));
            }
            s
        },
        SemanticType::Error => String::from_str("error"),
    }
}

/// The scalar semantic type named by a type keyword.
pub fn semantic_from_type(ty: TypeName) -> (r: SemanticType)
    ensures
        r@ == scalar_type(ty),
{
    match ty {
        TypeName::Int => SemanticType::Int,
        TypeName::Float => SemanticType::Float,
        TypeName::Void => SemanticType::Void,
    }
}

} // verus!
