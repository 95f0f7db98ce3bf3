use protosnirk::ast::{
    Assignment, BinaryOperation, Block, BlockFnDeclaration, Declaration, Expression, FnCall,
    FnTypeExpression, IfBlock, IfExpression, Identifier, Item, Literal, Parameter, Return, Statement,
    TypeAliasDeclaration, TypeExpression, UnaryOperation, Unit,
};
use protosnirk::check::{check, Checked};
use protosnirk::errors::ErrorKind;
use protosnirk::scoped_id::ScopedId;
use protosnirk::token::{TextLocation, Token};
use protosnirk::types::{ConcreteType, Operator};

fn tok(s: &str) -> Token {
    Token::new_ident(s.to_string(), TextLocation::default())
}

fn ident(s: &str) -> Identifier {
    Identifier::new(tok(s))
}

fn var(s: &str) -> Expression {
    Expression::VariableRef(ident(s))
}

fn num(s: &str) -> Expression {
    Expression::Literal(Literal { token: tok(s), ty: ConcreteType::Float })
}

fn boolean(s: &str) -> Expression {
    Expression::Literal(Literal { token: tok(s), ty: ConcreteType::Bool })
}

fn bin(op: Operator, l: Expression, r: Expression) -> Expression {
    Expression::BinaryOp(BinaryOperation { op, left: Box::new(l), right: Box::new(r) })
}

fn call(f: &str, args: Vec<Expression>) -> Expression {
    Expression::FnCall(FnCall { ident: ident(f), args })
}

fn decl(name: &str, value: Expression) -> Expression {
    Expression::Declaration(Declaration { mutable: false, ident: ident(name), type_decl: None, value: Box::new(value) })
}

fn typed_decl(name: &str, ty: TypeExpression, value: Expression) -> Expression {
    Expression::Declaration(Declaration { mutable: false, ident: ident(name), type_decl: Some(ty), value: Box::new(value) })
}

fn assign(name: &str, value: Expression) -> Expression {
    Expression::Assignment(Assignment { lvalue: ident(name), rvalue: Box::new(value) })
}

fn stmt(e: Expression) -> Statement {
    Statement::Expression(e)
}

fn param(name: &str) -> Parameter {
    Parameter { ident: ident(name), type_expr: None }
}

fn func(name: &str, params: Vec<&str>, stmts: Vec<Statement>) -> Item {
    Item::BlockFnDecl(BlockFnDeclaration {
        ident: ident(name),
        params: params.into_iter().map(param).collect(),
        return_type: None,
        block: Block::new(stmts),
    })
}

fn id(v: Vec<u64>) -> ScopedId {
    ScopedId::from_indices(v)
}

fn function(c: &Checked, i: usize) -> &BlockFnDeclaration {
    match &c.unit.items[i] {
        Item::BlockFnDecl(f) => f,
        Item::TypeAliasDecl(_) => panic!("not a function"),
    }
}

fn kinds(c: &Checked) -> Vec<ErrorKind> {
    c.errors.get_errors().iter().map(|e| e.kind).collect()
}

fn decl_ident(s: &Statement) -> &Identifier {
    match s {
        Statement::Expression(Expression::Declaration(d)) => &d.ident,
        _ => panic!("not a declaration"),
    }
}

#[test]
fn example_add_then_main() {
    let add = func("add", vec!["a", "b"], vec![stmt(bin(Operator::Addition, var("a"), var("b")))]);
    let main = func("main", vec![], vec![stmt(decl("x", call("add", vec![num("1"), num("2")])))]);
    let c = check(Unit { items: vec![add, main] });
    assert!(c.errors.is_empty());
    let add = function(&c, 0);
    let main = function(&c, 1);
    let x = decl_ident(&main.block.statements[0]);
    assert_eq!(add.ident.get_id().indices(), &vec![0]);
    assert_eq!(add.params[0].ident.get_id().indices(), &vec![0, 0]);
    assert_eq!(add.params[1].ident.get_id().indices(), &vec![0, 1]);
    assert_eq!(main.ident.get_id().indices(), &vec![1]);
    assert_eq!(x.get_id().indices(), &vec![1, 0, 1, 1]);
    let ids = [add.ident.get_id(), add.params[0].ident.get_id(), add.params[1].ident.get_id(), x.get_id()];
    for i in 0..ids.len() {
        assert!(!ids[i].is_default());
        for j in 0..i {
            assert!(ids[i] != ids[j]);
        }
    }
    assert_eq!(c.results.get(x.get_id()), Some(ConcreteType::Float));
    assert_eq!(c.results.get(add.ident.get_id()), Some(ConcreteType::Float));
    assert_eq!(c.results.get(add.params[0].ident.get_id()), Some(ConcreteType::Float));
    assert!(c.builder.get_qualified(&"add".to_string(), &"b".to_string()) == Some(id(vec![0, 1])));
    assert!(c.builder.get(&"main".to_string()) == Some(id(vec![1])));
}

#[test]
fn forward_reference_resolves() {
    let main = func("main", vec![], vec![stmt(decl("y", call("helper", vec![num("3")])))]);
    let helper = func("helper", vec!["n"], vec![stmt(bin(Operator::Multiplication, var("n"), num("2")))]);
    let c = check(Unit { items: vec![main, helper] });
    assert!(c.errors.is_empty());
    let main = function(&c, 0);
    let helper = function(&c, 1);
    match &main.block.statements[0] {
        Statement::Expression(Expression::Declaration(d)) => match &*d.value {
            Expression::FnCall(f) => assert!(f.ident.get_id() == helper.ident.get_id()),
            _ => panic!("not a call"),
        },
        _ => panic!("not a declaration"),
    }
    assert_eq!(c.results.get(&id(vec![0, 0, 1, 1])), Some(ConcreteType::Float));
}

#[test]
fn duplicate_parameter_reported_once() {
    let f = func("f", vec!["a", "a", "b"], vec![stmt(var("a"))]);
    let g = func("g", vec![], vec![stmt(num("1"))]);
    let c = check(Unit { items: vec![f, g] });
    assert_eq!(kinds(&c), vec![ErrorKind::DuplicateDefinition]);
    let f = function(&c, 0);
    assert_eq!(f.params[0].ident.get_id().indices(), &vec![0, 0]);
    assert!(f.params[1].ident.get_id().is_default());
    assert!(f.params[2].ident.get_id().is_default());
    assert!(f.block.get_id().is_default());
    let g = function(&c, 1);
    assert_eq!(g.ident.get_id().indices(), &vec![1]);
    assert_eq!(g.block.get_id().indices(), &vec![1, 0, 1]);
    assert_eq!(c.results.get(g.ident.get_id()), Some(ConcreteType::Float));
}

#[test]
fn inner_block_shadows_outer_variable() {
    let inner = Block::new(vec![stmt(decl("x", boolean("true"))), stmt(var("x"))]);
    let main = func("main", vec![], vec![
        stmt(decl("x", num("1"))),
        Statement::DoBlock(inner),
        stmt(var("x")),
    ]);
    let c = check(Unit { items: vec![main] });
    assert!(c.errors.is_empty());
    let main = function(&c, 0);
    let outer_x = decl_ident(&main.block.statements[0]).get_id();
    assert_eq!(outer_x.indices(), &vec![0, 0, 1, 1]);
    let inner = match &main.block.statements[1] {
        Statement::DoBlock(b) => b,
        _ => panic!("not a block"),
    };
    let inner_x = decl_ident(&inner.statements[0]).get_id();
    assert_eq!(inner_x.indices(), &vec![0, 0, 1, 2, 1]);
    match &inner.statements[1] {
        Statement::Expression(Expression::VariableRef(r)) => assert!(r.get_id() == inner_x),
        _ => panic!("not a reference"),
    }
    match &main.block.statements[2] {
        Statement::Expression(Expression::VariableRef(r)) => assert!(r.get_id() == outer_x),
        _ => panic!("not a reference"),
    }
    assert_eq!(c.results.get(inner_x), Some(ConcreteType::Bool));
    assert_eq!(c.results.get(outer_x), Some(ConcreteType::Float));
}

#[test]
fn undeclared_reference_reported_once() {
    let main = func("main", vec![], vec![
        stmt(decl("x", num("1"))),
        stmt(decl("z", bin(Operator::Addition, var("x"), var("y")))),
    ]);
    let c = check(Unit { items: vec![main] });
    assert_eq!(kinds(&c), vec![ErrorKind::UnknownReference]);
    assert_eq!(c.errors.get_errors()[0].token.text(), "y");
}

#[test]
fn underconstrained_declaration_reported_once() {
    let main = func("main", vec![], vec![stmt(decl("x", bin(Operator::Custom, num("1"), num("2"))))]);
    let c = check(Unit { items: vec![main] });
    assert_eq!(kinds(&c), vec![ErrorKind::NoTypeInfo]);
    assert_eq!(c.errors.get_errors()[0].token.text(), "x");
}

#[test]
fn declaration_from_underconstrained_variable() {
    let main = func("main", vec![], vec![
        stmt(decl("x", bin(Operator::Custom, num("1"), num("2")))),
        stmt(decl("y", var("x"))),
    ]);
    let c = check(Unit { items: vec![main] });
    assert_eq!(kinds(&c), vec![ErrorKind::NoTypeInfo, ErrorKind::NoTypeInfo]);
    assert_eq!(c.errors.get_errors()[1].token.text(), "y");
}

#[test]
fn conflicting_annotation_is_ambiguous() {
    let main = func("main", vec![], vec![stmt(typed_decl("x", TypeExpression::Primitive(ConcreteType::Bool), num("1")))]);
    let c = check(Unit { items: vec![main] });
    assert_eq!(kinds(&c), vec![ErrorKind::AmbiguousType]);
    assert_eq!(c.errors.get_errors()[0].candidates, vec![ConcreteType::Float, ConcreteType::Bool]);
}

#[test]
fn duplicate_function_reported() {
    let f1 = func("f", vec![], vec![stmt(num("1"))]);
    let f2 = func("f", vec![], vec![stmt(num("2"))]);
    let c = check(Unit { items: vec![f1, f2] });
    assert_eq!(kinds(&c), vec![ErrorKind::DuplicateDefinition]);
    assert!(function(&c, 1).ident.get_id().is_default());
    assert_eq!(function(&c, 0).ident.get_id().indices(), &vec![0]);
}

#[test]
fn duplicate_local_reported() {
    let main = func("main", vec![], vec![stmt(decl("x", num("1"))), stmt(decl("x", num("2")))]);
    let c = check(Unit { items: vec![main] });
    assert_eq!(kinds(&c), vec![ErrorKind::DuplicateDefinition]);
    let main = function(&c, 0);
    assert!(decl_ident(&main.block.statements[1]).get_id().is_default());
}

#[test]
fn unknown_callee_skips_arguments() {
    let main = func("main", vec![], vec![stmt(call("nothing", vec![var("y")])), stmt(num("0"))]);
    let c = check(Unit { items: vec![main] });
    assert_eq!(kinds(&c), vec![ErrorKind::UnknownReference]);
    assert_eq!(c.errors.get_errors()[0].token.text(), "nothing");
}

#[test]
fn assignment_to_unknown_variable() {
    let main = func("main", vec![], vec![stmt(assign("q", num("1")))]);
    let c = check(Unit { items: vec![main] });
    assert_eq!(kinds(&c), vec![ErrorKind::UnknownReference]);
}

#[test]
fn type_alias_annotation() {
    let alias = Item::TypeAliasDecl(TypeAliasDeclaration {
        ident: ident("MyFloat"),
        type_expr: TypeExpression::Primitive(ConcreteType::Float),
    });
    let main = func("main", vec![], vec![stmt(typed_decl("x", TypeExpression::Named(ident("MyFloat")), num("1")))]);
    let c = check(Unit { items: vec![alias, main] });
    assert!(c.errors.is_empty());
    let main = function(&c, 1);
    let x = decl_ident(&main.block.statements[0]);
    assert_eq!(c.results.get(x.get_id()), Some(ConcreteType::Float));
}

#[test]
fn unknown_type_annotation() {
    let main = func("main", vec![], vec![stmt(typed_decl("x", TypeExpression::Named(ident("Nope")), num("1")))]);
    let c = check(Unit { items: vec![main] });
    assert_eq!(kinds(&c), vec![ErrorKind::UnknownReference]);
    assert_eq!(c.errors.get_errors()[0].token.text(), "Nope");
}

#[test]
fn function_name_is_not_a_type() {
    let f = func("f", vec![], vec![stmt(num("1"))]);
    let main = func("main", vec![], vec![stmt(typed_decl("x", TypeExpression::Named(ident("f")), num("1")))]);
    let c = check(Unit { items: vec![f, main] });
    assert_eq!(kinds(&c), vec![ErrorKind::UnknownReference]);
}

#[test]
fn mapping_query_is_stable() {
    let add = func("add", vec!["a", "b"], vec![stmt(bin(Operator::Addition, var("a"), var("b")))]);
    let c = check(Unit { items: vec![add] });
    let a = id(vec![0, 0]);
    let first = c.results.get(&a);
    let second = c.results.get(&a);
    assert_eq!(first, Some(ConcreteType::Float));
    assert_eq!(first, second);
}

fn if_expr(c: Expression, t: Expression, e: Expression) -> Expression {
    Expression::IfExpression(IfExpression { condition: Box::new(c), true_expr: Box::new(t), else_expr: Box::new(e) })
}

fn float_ty() -> TypeExpression {
    TypeExpression::Primitive(ConcreteType::Float)
}

#[test]
fn check_example() {
    // fn fib(n: float) -> float
    //     if n < 0 => n else (if n <= 2 => 1 else n + fib(n - 1))
    let body = if_expr(
        bin(Operator::LessThan, var("n"), num("0")),
        var("n"),
        if_expr(
            bin(Operator::LessThanEquals, var("n"), num("2")),
            num("1"),
            bin(Operator::Addition, var("n"), call("fib", vec![bin(Operator::Subtraction, var("n"), num("1"))])),
        ),
    );
    let fib = Item::BlockFnDecl(BlockFnDeclaration {
        ident: ident("fib"),
        params: vec![Parameter { ident: ident("n"), type_expr: Some(float_ty()) }],
        return_type: Some(float_ty()),
        block: Block::new(vec![stmt(body)]),
    });
    let c = check(Unit { items: vec![fib] });
    assert!(c.errors.is_empty());
    let fib = function(&c, 0);
    assert_eq!(c.results.get(fib.ident.get_id()), Some(ConcreteType::Float));
    assert_eq!(c.results.get(fib.params[0].ident.get_id()), Some(ConcreteType::Float));
    assert_eq!(c.results.get(fib.block.get_id()), Some(ConcreteType::Float));
}

#[test]
fn return_type_conflict_is_ambiguous() {
    let f = Item::BlockFnDecl(BlockFnDeclaration {
        ident: ident("f"),
        params: vec![],
        return_type: Some(TypeExpression::Primitive(ConcreteType::Bool)),
        block: Block::new(vec![Statement::Return(Return { value: Some(Box::new(num("1"))) })]),
    });
    let c = check(Unit { items: vec![f] });
    assert_eq!(kinds(&c), vec![ErrorKind::AmbiguousType]);
    assert_eq!(c.errors.get_errors()[0].token.text(), "f");
}

#[test]
fn if_block_branches_share_a_type() {
    let then_b = Block::new(vec![stmt(num("1"))]);
    let else_b = Block::new(vec![stmt(Expression::UnaryOp(UnaryOperation { op: Operator::Subtraction, expression: Box::new(var("a")) }))]);
    let f = func("f", vec!["a"], vec![Statement::IfBlock(IfBlock {
        condition: bin(Operator::GreaterThan, var("a"), num("0")),
        block: then_b,
        else_block: Some(else_b),
    })]);
    let c = check(Unit { items: vec![f] });
    assert!(c.errors.is_empty());
    let f = function(&c, 0);
    assert_eq!(f.block.get_id().indices(), &vec![0, 0, 1]);
    assert_eq!(c.results.get(f.ident.get_id()), Some(ConcreteType::Float));
    match &f.block.statements[0] {
        Statement::IfBlock(i) => {
            assert_eq!(i.block.get_id().indices(), &vec![0, 0, 1, 1]);
            assert_eq!(i.else_block.as_ref().unwrap().get_id().indices(), &vec![0, 0, 1, 2]);
        },
        _ => panic!("not an if block"),
    }
}

#[test]
fn assignment_ties_variable_type() {
    let main2 = func("main", vec![], vec![
        stmt(Expression::Declaration(Declaration { mutable: true, ident: ident("x"), type_decl: None, value: Box::new(num("2")) })),
        stmt(assign("x", boolean("true"))),
    ]);
    let c2 = check(Unit { items: vec![main2] });
    assert_eq!(kinds(&c2), vec![ErrorKind::AmbiguousType]);
    assert_eq!(c2.errors.get_errors()[0].token.text(), "x");
}

#[test]
fn function_type_annotation_names_resolved() {
    let alias = Item::TypeAliasDecl(TypeAliasDeclaration { ident: ident("N"), type_expr: float_ty() });
    let fty = TypeExpression::Function(FnTypeExpression {
        params: vec![TypeExpression::Named(ident("N")), TypeExpression::Named(ident("Missing"))],
        return_type: Box::new(TypeExpression::Named(ident("N"))),
    });
    let f = Item::BlockFnDecl(BlockFnDeclaration {
        ident: ident("f"),
        params: vec![Parameter { ident: ident("g"), type_expr: Some(fty) }],
        return_type: None,
        block: Block::new(vec![stmt(num("1"))]),
    });
    let c = check(Unit { items: vec![alias, f] });
    assert_eq!(kinds(&c)[0], ErrorKind::UnknownReference);
    assert_eq!(c.errors.get_errors()[0].token.text(), "Missing");
}
