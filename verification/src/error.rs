//! The diagnostics that the semantic passes report.

use vstd::prelude::*;
use crate::ast::{PrimitiveType, Span};

verus! {

#[derive(Debug)]
pub enum CompilerError {
    /// A name declared twice where one declaration is expected.
    DuplicateDefinition { name: String, span: Span },
    /// A binding read after a `sink` took it away.
    UseAfterSink { name: String, span: Span },
    /// A closure-typed field on a public struct or enum variant.
    PublicClosureField { owner: String, field: String, span: Span },
    /// A sequence type where a sequence cannot be.
    SeqInvalidPosition { position: String, span: Span },
    /// A sequence that nothing reads on some path.
    SeqNotConsumed { span: Span },
    /// A sequence read a second time.
    SeqUsedTwice { name: String, span: Span },
    /// A private type named in a public signature.
    PrivateTypeInPublic { named_type: String, position: String, span: Span },
    /// Two arguments of one call that reach one place, one of them `mut`
    /// or `sink`.
    OverlappingArguments { path: String, span: Span },
    ArgumentCountMismatch { callee: String, expected: usize, actual: usize, span: Span },
    NoMatchingOverload { function: String, span: Span },
    FloatDictionaryKey { key_type: String, span: Span },
    TypeMismatch { expected: String, found: String, span: Span },
    ClosureParameterNeedsType { param: String, span: Span },
    ForLoopNotArray { actual: String, span: Span },
    InvalidIfCondition { actual: String, span: Span },
    ArrayDestructuringNotArray { actual: String, span: Span },
    StructDestructuringNotStruct { actual: String, span: Span },
    UnknownField { field: String, named_type: String, span: Span },
    NumericOverflow { written: String, target: PrimitiveType, span: Span },
    InvalidDictionaryKeyType { key_type: String, span: Span },
    UndefinedType { name: String, span: Span },
    TraitUsedAsValueType { name: String, span: Span },
    GenericArityMismatch { name: String, expected: usize, actual: usize, span: Span },
    MissingGenericArguments { name: String, span: Span },
    UnknownEnumVariant { variant: String, enum_name: String, span: Span },
    NonExhaustiveMatch { missing: String, span: Span },
    DuplicateMatchArm { variant: String, span: Span },
    NilAssignedToNonOptional { expected: String, span: Span },
    VisibilityViolation { name: String, span: Span },
    /// A `match` over a value that is not an enum or an optional.
    MatchNotEnum { actual: String, span: Span },
    /// An arm after a `_` arm, which can never run.
    UnreachableMatchArm { span: Span },
    /// A match arm that binds more or fewer payloads than its variant has.
    VariantArityMismatch { variant: String, expected: usize, actual: usize, span: Span },
    /// Data given to a variant that carries none.
    EnumVariantWithoutData { variant: String, enum_name: String, span: Span },
    /// A variant that carries data, given none.
    EnumVariantRequiresData { variant: String, enum_name: String, span: Span },
    /// A field that a value of a type needs and was not given.
    MissingField { field: String, named_type: String, span: Span },
    /// A struct or an enum where a trait is expected.
    NotATrait { name: String, actual_kind: String, span: Span },
    UndefinedTrait { name: String, span: Span },
    /// A one-letter upper-case name that no generic parameter in scope declares.
    OutOfScopeTypeParameter { param: String, span: Span },
    /// A dictionary key type without a total equality.
    InvalidDictionaryKey { key_type: String, span: Span },
    /// An immutable array of optionals whose literal holds no `nil`.
    PointlessOptionalElement { declared: String, suggested: String, span: Span },
    /// A binary operator whose operands have types it does not take.
    InvalidBinaryOp { op: String, left_type: String, right_type: String, span: Span },
    /// A labelled argument in a call of a closure, whose parameters have no names.
    LabelledClosureArgument { label: String, span: Span },
    /// A type parameter that neither a type argument nor an argument of the call fixes.
    UninferableMethodTypeParameter { param: String, method: String, span: Span },
    /// An argument that a `mut` or `sink` parameter cannot take.
    MutabilityMismatch { param: String, span: Span },
    /// A type argument that does not implement a bound of its parameter.
    GenericConstraintViolation { arg: String, constraint: String, span: Span },
    /// A name that refers to nothing here.
    UndefinedReference { name: String, span: Span },
    /// A call on a type of a method that takes `self`.
    NotAStaticMethod { method: String, named_type: String, span: Span },
    /// A call that two or more overloads fit equally well.
    AmbiguousCall { function: String, span: Span },
    /// A number literal whose value its type cannot hold.
    InvalidNumber { value: String, span: Span },
    ExpressionDepthExceeded { span: Span },
    CannotInferEnumType { variant: String, span: Span },
    FunctionReturnTypeMismatch { function: String, expected: String, actual: String, span: Span },
    /// An argument without a label in an instantiation of a struct; the
    /// position counts from 1.
    PositionalArgInStruct { struct_name: String, position: usize, span: Span },
    /// A value that may be absent, used where a present one is needed.
    OptionalUsedAsNonOptional { actual: String, expected: String, span: Span },
}

/// A diagnostic with its texts as character sequences.
pub ghost enum ErrorView {
    DuplicateDefinition { name: Seq<char>, span: Span },
    UseAfterSink { name: Seq<char>, span: Span },
    PublicClosureField { owner: Seq<char>, field: Seq<char>, span: Span },
    SeqInvalidPosition { position: Seq<char>, span: Span },
    SeqNotConsumed { span: Span },
    SeqUsedTwice { name: Seq<char>, span: Span },
    PrivateTypeInPublic { named_type: Seq<char>, position: Seq<char>, span: Span },
    OverlappingArguments { path: Seq<char>, span: Span },
    ArgumentCountMismatch { callee: Seq<char>, expected: usize, actual: usize, span: Span },
    NoMatchingOverload { function: Seq<char>, span: Span },
    FloatDictionaryKey { key_type: Seq<char>, span: Span },
    TypeMismatch { expected: Seq<char>, found: Seq<char>, span: Span },
    ClosureParameterNeedsType { param: Seq<char>, span: Span },
    ForLoopNotArray { actual: Seq<char>, span: Span },
    InvalidIfCondition { actual: Seq<char>, span: Span },
    ArrayDestructuringNotArray { actual: Seq<char>, span: Span },
    StructDestructuringNotStruct { actual: Seq<char>, span: Span },
    UnknownField { field: Seq<char>, named_type: Seq<char>, span: Span },
    NumericOverflow { written: Seq<char>, target: PrimitiveType, span: Span },
    InvalidDictionaryKeyType { key_type: Seq<char>, span: Span },
    UndefinedType { name: Seq<char>, span: Span },
    TraitUsedAsValueType { name: Seq<char>, span: Span },
    GenericArityMismatch { name: Seq<char>, expected: usize, actual: usize, span: Span },
    MissingGenericArguments { name: Seq<char>, span: Span },
    UnknownEnumVariant { variant: Seq<char>, enum_name: Seq<char>, span: Span },
    NonExhaustiveMatch { missing: Seq<char>, span: Span },
    DuplicateMatchArm { variant: Seq<char>, span: Span },
    NilAssignedToNonOptional { expected: Seq<char>, span: Span },
    VisibilityViolation { name: Seq<char>, span: Span },
    MatchNotEnum { actual: Seq<char>, span: Span },
    UnreachableMatchArm { span: Span },
    VariantArityMismatch { variant: Seq<char>, expected: usize, actual: usize, span: Span },
    EnumVariantWithoutData { variant: Seq<char>, enum_name: Seq<char>, span: Span },
    EnumVariantRequiresData { variant: Seq<char>, enum_name: Seq<char>, span: Span },
    MissingField { field: Seq<char>, named_type: Seq<char>, span: Span },
    NotATrait { name: Seq<char>, actual_kind: Seq<char>, span: Span },
    UndefinedTrait { name: Seq<char>, span: Span },
    OutOfScopeTypeParameter { param: Seq<char>, span: Span },
    InvalidDictionaryKey { key_type: Seq<char>, span: Span },
    PointlessOptionalElement { declared: Seq<char>, suggested: Seq<char>, span: Span },
    InvalidBinaryOp { op: Seq<char>, left_type: Seq<char>, right_type: Seq<char>, span: Span },
    LabelledClosureArgument { label: Seq<char>, span: Span },
    UninferableMethodTypeParameter { param: Seq<char>, method: Seq<char>, span: Span },
    MutabilityMismatch { param: Seq<char>, span: Span },
    GenericConstraintViolation { arg: Seq<char>, constraint: Seq<char>, span: Span },
    UndefinedReference { name: Seq<char>, span: Span },
    NotAStaticMethod { method: Seq<char>, named_type: Seq<char>, span: Span },
    AmbiguousCall { function: Seq<char>, span: Span },
    InvalidNumber { value: Seq<char>, span: Span },
    ExpressionDepthExceeded { span: Span },
    CannotInferEnumType { variant: Seq<char>, span: Span },
    FunctionReturnTypeMismatch { function: Seq<char>, expected: Seq<char>, actual: Seq<char>, span: Span },
    PositionalArgInStruct { struct_name: Seq<char>, position: usize, span: Span },
    OptionalUsedAsNonOptional { actual: Seq<char>, expected: Seq<char>, span: Span },
}

impl View for CompilerError {
    type V = ErrorView;

    open spec fn view(&self) -> ErrorView {
        match *self {
            CompilerError::DuplicateDefinition { name, span } => ErrorView::DuplicateDefinition { name: name@, span },
            CompilerError::UseAfterSink { name, span } => ErrorView::UseAfterSink { name: name@, span },
            CompilerError::PublicClosureField { owner, field, span } => ErrorView::PublicClosureField { owner: owner@, field: field@, span },
            CompilerError::SeqInvalidPosition { position, span } => ErrorView::SeqInvalidPosition { position: position@, span },
            CompilerError::SeqNotConsumed { span } => ErrorView::SeqNotConsumed { span },
            CompilerError::SeqUsedTwice { name, span } => ErrorView::SeqUsedTwice { name: name@, span },
            CompilerError::PrivateTypeInPublic { named_type, position, span } => ErrorView::PrivateTypeInPublic { named_type: named_type@, position: position@, span },
            CompilerError::OverlappingArguments { path, span } => ErrorView::OverlappingArguments { path: path@, span },
            CompilerError::ArgumentCountMismatch { callee, expected, actual, span } => ErrorView::ArgumentCountMismatch { callee: callee@, expected, actual, span },
            CompilerError::NoMatchingOverload { function, span } => ErrorView::NoMatchingOverload { function: function@, span },
            CompilerError::FloatDictionaryKey { key_type, span } => ErrorView::FloatDictionaryKey { key_type: key_type@, span },
            CompilerError::TypeMismatch { expected, found, span } => ErrorView::TypeMismatch { expected: expected@, found: found@, span },
            CompilerError::ClosureParameterNeedsType { param, span } => ErrorView::ClosureParameterNeedsType { param: param@, span },
            CompilerError::ForLoopNotArray { actual, span } => ErrorView::ForLoopNotArray { actual: actual@, span },
            CompilerError::InvalidIfCondition { actual, span } => ErrorView::InvalidIfCondition { actual: actual@, span },
            CompilerError::ArrayDestructuringNotArray { actual, span } => ErrorView::ArrayDestructuringNotArray { actual: actual@, span },
            CompilerError::StructDestructuringNotStruct { actual, span } => ErrorView::StructDestructuringNotStruct { actual: actual@, span },
            CompilerError::UnknownField { field, named_type, span } => ErrorView::UnknownField { field: field@, named_type: named_type@, span },
            CompilerError::NumericOverflow { written, target, span } => ErrorView::NumericOverflow { written: written@, target, span },
            CompilerError::InvalidDictionaryKeyType { key_type, span } => ErrorView::InvalidDictionaryKeyType { key_type: key_type@, span },
            CompilerError::UndefinedType { name, span } => ErrorView::UndefinedType { name: name@, span },
            CompilerError::TraitUsedAsValueType { name, span } => ErrorView::TraitUsedAsValueType { name: name@, span },
            CompilerError::GenericArityMismatch { name, expected, actual, span } => ErrorView::GenericArityMismatch { name: name@, expected, actual, span },
            CompilerError::MissingGenericArguments { name, span } => ErrorView::MissingGenericArguments { name: name@, span },
            CompilerError::UnknownEnumVariant { variant, enum_name, span } => ErrorView::UnknownEnumVariant { variant: variant@, enum_name: enum_name@, span },
            CompilerError::NonExhaustiveMatch { missing, span } => ErrorView::NonExhaustiveMatch { missing: missing@, span },
            CompilerError::DuplicateMatchArm { variant, span } => ErrorView::DuplicateMatchArm { variant: variant@, span },
            CompilerError::NilAssignedToNonOptional { expected, span } => ErrorView::NilAssignedToNonOptional { expected: expected@, span },
            CompilerError::VisibilityViolation { name, span } => ErrorView::VisibilityViolation { name: name@, span },
            CompilerError::MatchNotEnum { actual, span } => ErrorView::MatchNotEnum { actual: actual@, span },
            CompilerError::UnreachableMatchArm { span } => ErrorView::UnreachableMatchArm { span },
            CompilerError::VariantArityMismatch { variant, expected, actual, span } => ErrorView::VariantArityMismatch { variant: variant@, expected, actual, span },
            CompilerError::EnumVariantWithoutData { variant, enum_name, span } => ErrorView::EnumVariantWithoutData { variant: variant@, enum_name: enum_name@, span },
            CompilerError::EnumVariantRequiresData { variant, enum_name, span } => ErrorView::EnumVariantRequiresData { variant: variant@, enum_name: enum_name@, span },
            CompilerError::MissingField { field, named_type, span } => ErrorView::MissingField { field: field@, named_type: named_type@, span },
            CompilerError::NotATrait { name, actual_kind, span } => ErrorView::NotATrait { name: name@, actual_kind: actual_kind@, span },
            CompilerError::UndefinedTrait { name, span } => ErrorView::UndefinedTrait { name: name@, span },
            CompilerError::OutOfScopeTypeParameter { param, span } => ErrorView::OutOfScopeTypeParameter { param: param@, span },
            CompilerError::InvalidDictionaryKey { key_type, span } => ErrorView::InvalidDictionaryKey { key_type: key_type@, span },
            CompilerError::PointlessOptionalElement { declared, suggested, span } => ErrorView::PointlessOptionalElement { declared: declared@, suggested: suggested@, span },
            CompilerError::InvalidBinaryOp { op, left_type, right_type, span } => ErrorView::InvalidBinaryOp { op: op@, left_type: left_type@, right_type: right_type@, span },
            CompilerError::LabelledClosureArgument { label, span } => ErrorView::LabelledClosureArgument { label: label@, span },
            CompilerError::UninferableMethodTypeParameter { param, method, span } => ErrorView::UninferableMethodTypeParameter { param: param@, method: method@, span },
            CompilerError::MutabilityMismatch { param, span } => ErrorView::MutabilityMismatch { param: param@, span },
            CompilerError::GenericConstraintViolation { arg, constraint, span } => ErrorView::GenericConstraintViolation { arg: arg@, constraint: constraint@, span },
            CompilerError::UndefinedReference { name, span } => ErrorView::UndefinedReference { name: name@, span },
            CompilerError::NotAStaticMethod { method, named_type, span } => ErrorView::NotAStaticMethod { method: method@, named_type: named_type@, span },
            CompilerError::AmbiguousCall { function, span } => ErrorView::AmbiguousCall { function: function@, span },
            CompilerError::InvalidNumber { value, span } => ErrorView::InvalidNumber { value: value@, span },
            CompilerError::ExpressionDepthExceeded { span } => ErrorView::ExpressionDepthExceeded { span },
            CompilerError::CannotInferEnumType { variant, span } => ErrorView::CannotInferEnumType { variant: variant@, span },
            CompilerError::FunctionReturnTypeMismatch { function, expected, actual, span } => ErrorView::FunctionReturnTypeMismatch { function: function@, expected: expected@, actual: actual@, span },
            CompilerError::PositionalArgInStruct { struct_name, position, span } => ErrorView::PositionalArgInStruct { struct_name: struct_name@, position, span },
            CompilerError::OptionalUsedAsNonOptional { actual, expected, span } => ErrorView::OptionalUsedAsNonOptional { actual: actual@, expected: expected@, span },
        }
    }
}

/// The views of a list of diagnostics.
pub open spec fn error_views(errors: Seq<CompilerError>) -> Seq<ErrorView> {
    errors.map_values(|e: CompilerError| e@)
}

} // verus!
