//! Numeric literals: whether one fits its type, and whether one takes its
//! type from the context.

use vstd::prelude::*;
use crate::analyzer::SemanticAnalyzer;
use crate::ast::{BinaryOperator, Expr, Literal, NumberSourceKind, NumberValue, PrimitiveType, Span, Type, UnaryOperator};
use crate::error::{error_views, CompilerError, ErrorView};
use crate::sem_type::{primitive_name, primitive_text};
use crate::text::{signed_decimal, signed_decimal_string};
use vstd::string::StringExecFns;

verus! {

/// `e` has no numeric type of its own: an unsuffixed numeric literal, or
/// negation, parentheses and arithmetic of such. It takes its type from
/// the other operand or from the context.
pub open spec fn flexible(e: Expr) -> bool
    decreases e,
{
    match e {
        Expr::Literal { value: Literal::Number(n), .. } => n.suffix is None,
        Expr::Group { expr, .. } => flexible(*expr),
        Expr::UnaryOp { op: UnaryOperator::Neg, operand, .. } => flexible(*operand),
        Expr::BinaryOp { left, op, right, .. } => (op is Add || op is Sub || op is Mul || op is Div || op is Mod)
            && flexible(*left) && flexible(*right),
        _ => false,
    }
}

/// Whether `expr` has no numeric type of its own.
pub fn is_flexible(expr: &Expr) -> (r: bool)
    ensures
        r == flexible(*expr),
    decreases *expr,
{
    match expr {
        Expr::Literal { value: Literal::Number(n), .. } => n.suffix.is_none(),
        Expr::Group { expr, .. } => is_flexible(expr),
        Expr::UnaryOp { op: UnaryOperator::Neg, operand, .. } => is_flexible(operand),
        Expr::BinaryOp { left, op, right, .. } => {
            let arithmetic = match op {
                BinaryOperator::Add | BinaryOperator::Sub | BinaryOperator::Mul | BinaryOperator::Div | BinaryOperator::Mod => true,
                _ => false,
            };
            arithmetic && is_flexible(left) && is_flexible(right)
        },
        _ => false,
    }
}

/// `arg` is an unsuffixed numeric literal and `declared` a numeric type of
/// the literal's kind: an integer for integer syntax, a float for float
/// syntax.
pub open spec fn fits_literally(arg: Expr, declared: Type) -> bool {
    match arg {
        Expr::Literal { value: Literal::Number(n), .. } => n.suffix is None && match declared {
            Type::Primitive(p) => match n.kind {
                NumberSourceKind::Integer => p is I32 || p is I64,
                NumberSourceKind::Float => p is F32 || p is F64,
            },
            _ => false,
        },
        _ => false,
    }
}

/// True when `arg` is an unsuffixed numeric literal and `declared` is a
/// numeric type of the literal's kind.
pub fn literal_fits(arg: &Expr, declared: &Type) -> (r: bool)
    ensures
        r == fits_literally(*arg, *declared),
{
    let n = match arg {
        Expr::Literal { value: Literal::Number(n), .. } => n,
        _ => {
            return false;
        },
    };
    if n.suffix.is_some() {
        return false;
    }
    let p = match declared {
        Type::Primitive(p) => *p,
        _ => {
            return false;
        },
    };
    match n.kind {
        NumberSourceKind::Integer => match p {
            PrimitiveType::I32 | PrimitiveType::I64 => true,
            _ => false,
        },
        NumberSourceKind::Float => match p {
            PrimitiveType::F32 | PrimitiveType::F64 => true,
            _ => false,
        },
    }
}

/// An integer value `v` is in the range of the type `target`. Every
/// integer has a float form, and a number literal has no other type.
pub open spec fn integer_in_range(v: int, target: PrimitiveType) -> bool {
    match target {
        PrimitiveType::I32 => i32::MIN <= v <= i32::MAX,
        PrimitiveType::I64 => i64::MIN <= v <= i64::MAX,
        _ => true,
    }
}

impl SemanticAnalyzer {
    /// Check that a number literal fits `target`, its type: an integer
    /// value must be in the range of an integer target, and a value with a
    /// fraction cannot have a type other than a float type. Literals of
    /// other kinds, and a literal without a type, are left to other checks.
    pub fn validate_numeric_literal(&mut self, lit: &Literal, target: Option<PrimitiveType>, span: Span)
        ensures
            final(self).same_state(*old(self)),
            error_views(final(self).errors@) == error_views(old(self).errors@) + match (*lit, target) {
                (Literal::Number(n), Some(t)) => match n.value {
                    NumberValue::Integer(v) => if integer_in_range(v as int, t) {
                        Seq::<ErrorView>::empty()
                    } else {
                        seq![ErrorView::NumericOverflow { written: signed_decimal(v as int), target: t, span }]
                    },
                    NumberValue::Float(text) => if t == PrimitiveType::F32 || t == PrimitiveType::F64 {
                        Seq::<ErrorView>::empty()
                    } else {
                        seq![ErrorView::InvalidNumber { value: text@ + " does not fit in "@ + primitive_name(t), span }]
                    },
                },
                _ => Seq::<ErrorView>::empty(),
            },
    {
        let (n, target) = match (lit, target) {
            (Literal::Number(n), Some(t)) => (n, t),
            _ => {
                assert(error_views(self.errors@) =~= error_views(self.errors@) + Seq::<ErrorView>::empty());
                return;
            },
        };
        match &n.value {
            NumberValue::Integer(v) => {
                let v = *v;
                let in_range = match target {
                    PrimitiveType::I32 => -2147483648i128 <= v && v <= 2147483647i128,
                    PrimitiveType::I64 => -9223372036854775808i128 <= v && v <= 9223372036854775807i128,
                    _ => true,
                };
                if !in_range {
                    self.report(CompilerError::NumericOverflow { written: signed_decimal_string(v), target, span });
                } else {
                    assert(error_views(self.errors@) =~= error_views(self.errors@) + Seq::<ErrorView>::empty());
                }
            },
            NumberValue::Float(text) => {
                match target {
                    PrimitiveType::F32 | PrimitiveType::F64 => {
                        assert(error_views(self.errors@) =~= error_views(self.errors@) + Seq::<ErrorView>::empty());
                    },
                    _ => {
                        let mut value = text.clone();
                        value.append(" does not fit in ");
                        value.append(primitive_text(target));
                        self.report(CompilerError::InvalidNumber { value, span });
                    },
                }
            },
        }
    }
}

} // verus!
