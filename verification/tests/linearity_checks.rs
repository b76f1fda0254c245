use lib::analyzer::SemanticAnalyzer;
use lib::ast::{
    BinaryOperator, BindingPattern, BlockStatement, ClosureParam, Definition, Expr, File, FnParam, FunctionDef, Ident,
    Literal, MatchArm, ParamConvention, Pattern, Span, Statement, Type, Visibility,
};
use lib::error::CompilerError;
use lib::symbols::SymbolTable;

fn at(n: usize) -> Span {
    Span { start: n, end: n + 1 }
}

fn nm(text: &str) -> Ident {
    Ident { name: text.to_string(), span: at(0) }
}

fn use_of(name: &str, n: usize) -> Expr {
    Expr::Reference { path: vec![nm(name)], span: at(n) }
}

fn seq_type() -> Type {
    Type::Generic { name: nm("Seq"), args: vec![Type::Primitive(lib::ast::PrimitiveType::I32)], span: at(0) }
}

fn let_seq(name: &str, n: usize) -> BlockStatement {
    BlockStatement::Let {
        mutable: false,
        pattern: BindingPattern::Simple(nm(name)),
        ty: Some(seq_type()),
        value: Expr::Literal { value: Literal::Nil, span: at(0) },
        span: at(n),
    }
}

fn block(statements: Vec<BlockStatement>, result: Expr) -> Expr {
    Expr::Block { statements, result: Box::new(result), span: at(0) }
}

fn call(name: &str, args: Vec<Expr>) -> Expr {
    Expr::Invocation { path: vec![nm(name)], type_args: vec![], args: args.into_iter().map(|a| (None, a)).collect(), span: at(0) }
}

fn unit() -> Expr {
    Expr::Literal { value: Literal::Boolean(true), span: at(0) }
}

fn walk(body: &Expr, seqs: &Vec<Span>) -> Vec<CompilerError> {
    let mut a = SemanticAnalyzer::new(SymbolTable::new());
    a.check_linear_body(&vec![], body, true, seqs);
    a.errors
}

#[test]
fn a_sequence_read_once_is_fine() {
    let body = block(vec![let_seq("xs", 1)], call("sum", vec![use_of("xs", 2)]));
    assert!(walk(&body, &vec![]).is_empty());
}

#[test]
fn a_second_read_is_a_use_twice() {
    let body = block(vec![let_seq("xs", 1)], call("zip", vec![use_of("xs", 2), use_of("xs", 3)]));
    let errors = walk(&body, &vec![]);
    assert_eq!(errors.len(), 1);
    assert!(matches!(&errors[0], CompilerError::SeqUsedTwice { name, span } if name == "xs" && *span == at(3)));
}

#[test]
fn a_sequence_nothing_reads_is_not_consumed() {
    let body = block(vec![let_seq("xs", 4)], unit());
    let errors = walk(&body, &vec![]);
    assert_eq!(errors.len(), 1);
    assert!(matches!(&errors[0], CompilerError::SeqNotConsumed { span } if *span == at(4)));
}

#[test]
fn a_read_inside_a_loop_body_is_a_read_per_pass() {
    let looped = Expr::ForExpr { var: nm("i"), collection: Box::new(call("range", vec![])), body: Box::new(use_of("xs", 5)), span: at(0) };
    let body = block(vec![let_seq("xs", 1)], looped);
    let errors = walk(&body, &vec![]);
    assert_eq!(errors.len(), 2, "{errors:?}");
    assert!(matches!(&errors[0], CompilerError::SeqUsedTwice { name, span } if name == "xs" && *span == at(5)));
    assert!(matches!(&errors[1], CompilerError::SeqNotConsumed { span } if *span == at(1)));
}

#[test]
fn a_closure_argument_runs_once_per_element() {
    let closure = Expr::ClosureExpr {
        params: vec![ClosureParam { convention: ParamConvention::Let, name: nm("acc"), ty: None, span: at(0) }],
        return_type: None,
        body: Box::new(use_of("xs", 6)),
        span: at(0),
    };
    let body = block(vec![let_seq("xs", 1)], call("fold", vec![closure]));
    let errors = walk(&body, &vec![]);
    assert!(matches!(&errors[0], CompilerError::SeqUsedTwice { name, span } if name == "xs" && *span == at(6)));
}

#[test]
fn a_sequence_read_on_one_branch_only_is_not_consumed_on_the_other() {
    let branch = Expr::IfExpr {
        condition: Box::new(unit()),
        then_branch: Box::new(use_of("xs", 2)),
        else_branch: Some(Box::new(unit())),
        span: at(0),
    };
    let body = block(vec![let_seq("xs", 1)], branch);
    let errors = walk(&body, &vec![]);
    assert_eq!(errors.len(), 1, "{errors:?}");
    assert!(matches!(&errors[0], CompilerError::SeqNotConsumed { span } if *span == at(1)));
}

#[test]
fn every_arm_reading_the_sequence_is_fine() {
    let arm = |n: usize| MatchArm { pattern: Pattern::Wildcard, body: use_of("xs", n), span: at(0) };
    let matched = Expr::MatchExpr { scrutinee: Box::new(unit()), arms: vec![arm(2), arm(3)], span: at(0) };
    let body = block(vec![let_seq("xs", 1)], matched);
    assert!(walk(&body, &vec![]).is_empty());
}

#[test]
fn the_right_side_of_and_may_not_run() {
    let both = Expr::BinaryOp { left: Box::new(unit()), op: BinaryOperator::And, right: Box::new(use_of("xs", 2)), span: at(0) };
    let body = block(vec![let_seq("xs", 1)], both);
    let errors = walk(&body, &vec![]);
    assert_eq!(errors.len(), 1);
    assert!(matches!(&errors[0], CompilerError::SeqNotConsumed { span } if *span == at(1)));
}

#[test]
fn a_plain_binding_hides_the_sequence_above_it() {
    let inner = Expr::LetExpr {
        mutable: false,
        pattern: BindingPattern::Simple(nm("xs")),
        ty: None,
        value: Box::new(use_of("xs", 2)),
        body: Box::new(call("pair", vec![use_of("xs", 3), use_of("xs", 4)])),
        span: at(5),
    };
    let body = block(vec![let_seq("xs", 1)], inner);
    assert!(walk(&body, &vec![]).is_empty());
}

#[test]
fn an_inferred_sequence_statement_is_not_consumed() {
    let made = Expr::MethodCall { receiver: Box::new(use_of("data", 0)), method: nm("map"), args: vec![], span: at(7) };
    let body = block(vec![BlockStatement::Expr(made)], unit());
    let errors = walk(&body, &vec![at(7)]);
    assert_eq!(errors.len(), 1);
    assert!(matches!(&errors[0], CompilerError::SeqNotConsumed { span } if *span == at(7)));
}

#[test]
fn a_sink_sequence_parameter_must_be_consumed_and_a_discarded_tail_is_reported() {
    let param = FnParam { convention: ParamConvention::Sink, external_label: None, name: nm("items"), ty: Some(seq_type()), default: None, span: at(8) };
    let body = block(vec![], Expr::MethodCall { receiver: Box::new(use_of("other", 0)), method: nm("map"), args: vec![], span: at(9) });
    let f = FunctionDef {
        visibility: Visibility::Public,
        name: nm("drop_it"),
        generics: vec![],
        params: vec![param],
        return_type: None,
        body: Some(body),
        extern_abi: None,
        span: at(0),
    };
    let file = File { statements: vec![Statement::Definition(Box::new(Definition::Function(f)))] };
    let mut a = SemanticAnalyzer::new(SymbolTable::new());
    a.validate_sequence_linearity(&file, &vec![at(9)]);
    assert_eq!(a.errors.len(), 2, "{:?}", a.errors);
    assert!(matches!(&a.errors[0], CompilerError::SeqNotConsumed { span } if *span == at(8)));
    assert!(matches!(&a.errors[1], CompilerError::SeqNotConsumed { span } if *span == at(9)));
}
