use protosnirk::ast::{Block, Expression, Identifier, Item, Literal, Statement, TypeAliasDeclaration, TypeExpression, Unit};
use protosnirk::concretifier::{Query, TypeConcretifier};
use protosnirk::errors::{CheckerError, ErrorCollector, ErrorKind};
use protosnirk::graph::{Term, TypeGraph};
use protosnirk::item_namer::ItemVarIdentifier;
use protosnirk::scope::NameScopeBuilder;
use protosnirk::scoped_id::ScopedId;
use protosnirk::token::{TextLocation, Token};
use protosnirk::type_namer::{alias_table, ExpressionTypeIdentifier};
use protosnirk::types::{ConcreteType, Operator};

fn tok(s: &str) -> Token {
    Token::new_ident(s.to_string(), TextLocation::default())
}

fn sid(v: Vec<u64>) -> ScopedId {
    ScopedId::from_indices(v)
}

#[test]
fn scoped_id_operations() {
    let mut id = ScopedId::new();
    assert!(id.is_default());
    id.push();
    assert_eq!(id.indices(), &vec![0]);
    id.increment();
    id.increment();
    assert_eq!(id.indices(), &vec![2]);
    id.push();
    id.increment();
    assert_eq!(id.indices(), &vec![2, 1]);
    id.pop();
    assert_eq!(id.indices(), &vec![2]);
    assert!(!id.is_default());
    assert_eq!(id.child(7).indices(), &vec![2, 7]);
    assert!(id.clone() == sid(vec![2]));
    assert!(id != sid(vec![2, 0]));
    assert!(id != sid(vec![3]));
}

#[test]
fn scope_lookup_innermost_first() {
    let mut b = NameScopeBuilder::new();
    b.define_global("f".to_string(), sid(vec![0]));
    b.new_scope();
    b.define_local("x".to_string(), sid(vec![0, 0, 1, 1]));
    b.new_scope();
    assert!(b.get_local(&"x".to_string()).is_none());
    assert!(b.get(&"x".to_string()) == Some(sid(vec![0, 0, 1, 1])));
    b.define_local("x".to_string(), sid(vec![0, 0, 1, 2, 1]));
    assert!(b.get(&"x".to_string()) == Some(sid(vec![0, 0, 1, 2, 1])));
    assert!(b.get_local(&"x".to_string()) == Some(sid(vec![0, 0, 1, 2, 1])));
    b.pop();
    assert!(b.get(&"x".to_string()) == Some(sid(vec![0, 0, 1, 1])));
    assert!(b.get(&"f".to_string()) == Some(sid(vec![0])));
    assert!(b.get(&"g".to_string()).is_none());
    b.define_local("f".to_string(), sid(vec![0, 0, 1, 2]));
    assert!(b.get(&"f".to_string()) == Some(sid(vec![0, 0, 1, 2])));
}

#[test]
fn scope_qualified_names() {
    let mut b = NameScopeBuilder::new();
    b.define_qualified(&"add".to_string(), &"a".to_string(), sid(vec![0, 0]));
    assert!(b.get_qualified(&"add".to_string(), &"a".to_string()) == Some(sid(vec![0, 0])));
    assert!(b.get_qualified(&"add".to_string(), &"b".to_string()).is_none());
    assert!(b.get(&"a".to_string()).is_none());
}

#[test]
fn graph_solves_single_type() {
    let mut g = TypeGraph::new();
    g.relate(&Term::Var(sid(vec![1])), &Term::Var(sid(vec![2])));
    g.relate(&Term::Var(sid(vec![2])), &Term::Fixed(ConcreteType::Bool));
    assert_eq!(g.infer_type_of_var(&sid(vec![1])), Ok(ConcreteType::Bool));
    assert_eq!(g.infer_type_of_var(&sid(vec![2])), Ok(ConcreteType::Bool));
}

#[test]
fn graph_reports_no_information() {
    let mut g = TypeGraph::new();
    g.relate(&Term::Var(sid(vec![1])), &Term::Var(sid(vec![2])));
    g.relate(&Term::Var(sid(vec![3])), &Term::Fixed(ConcreteType::Float));
    assert_eq!(g.infer_type_of_var(&sid(vec![1])), Err(vec![]));
    assert_eq!(g.infer_type_of_var(&sid(vec![9])), Err(vec![]));
    g.relate(&Term::Fixed(ConcreteType::Float), &Term::Fixed(ConcreteType::Bool));
    g.relate(&Term::Var(sid(vec![1])), &Term::Free);
    assert_eq!(g.infer_type_of_var(&sid(vec![1])), Err(vec![]));
}

#[test]
fn graph_reports_conflicts() {
    let mut g = TypeGraph::new();
    g.relate(&Term::Var(sid(vec![1])), &Term::Var(sid(vec![2])));
    g.relate(&Term::Var(sid(vec![3])), &Term::Var(sid(vec![2])));
    g.relate(&Term::Fixed(ConcreteType::Unit), &Term::Var(sid(vec![3])));
    g.relate(&Term::Var(sid(vec![1])), &Term::Fixed(ConcreteType::Float));
    assert_eq!(g.infer_type_of_var(&sid(vec![2])), Err(vec![ConcreteType::Float, ConcreteType::Unit]));
    assert_eq!(g.find_node(&sid(vec![3])), Some(2));
    assert_eq!(g.find_node(&sid(vec![4])), None);
}

#[test]
fn block_value_is_last_statement() {
    let lit = || Expression::Literal(Literal { token: tok("1"), ty: ConcreteType::Float });
    let empty = Block::new(vec![]);
    assert!(!empty.has_value());
    assert!(empty.get_id().is_default());
    assert_eq!(empty.get_stmts().len(), 0);
    let valued = Block::new(vec![Statement::Expression(lit())]);
    assert!(valued.has_value());
    let decl = Expression::Declaration(protosnirk::ast::Declaration {
        mutable: true,
        ident: Identifier::new(tok("x")),
        type_decl: None,
        value: Box::new(lit()),
    });
    let mut unvalued = Block::new(vec![Statement::Expression(lit()), Statement::Expression(decl)]);
    assert!(!unvalued.has_value());
    unvalued.set_id(sid(vec![0, 0, 1]));
    assert_eq!(unvalued.get_id().indices(), &vec![0, 0, 1]);
    let nested = Block::new(vec![Statement::DoBlock(Block::new(vec![Statement::Expression(lit())]))]);
    assert!(nested.has_value());
}

#[test]
fn identifier_accessors() {
    let mut i = Identifier::new(Token::new("x".to_string(), TextLocation { index: 4, line: 1, column: 2 }));
    assert_eq!(i.get_name(), "x");
    assert_eq!(i.get_token().location().line, 1);
    assert!(i.get_id().is_default());
    i.set_id(sid(vec![3]));
    assert_eq!(i.get_id().indices(), &vec![3]);
    let t: Token = i.into();
    assert_eq!(t.text(), "x");
    assert_eq!(t.location().column, 2);
}

#[test]
fn operator_table() {
    assert_eq!(Operator::Addition.binary_result(), Some(ConcreteType::Float));
    assert_eq!(Operator::LessThan.binary_result(), Some(ConcreteType::Bool));
    assert_eq!(Operator::LessThan.binary_operand(), Some(ConcreteType::Float));
    assert_eq!(Operator::Custom.binary_result(), None);
    assert_eq!(Operator::Subtraction.unary(), Some(ConcreteType::Float));
    assert_eq!(Operator::Addition.unary(), None);
}

#[test]
fn error_collector_appends() {
    let mut e = ErrorCollector::new();
    assert!(e.is_empty());
    e.add_error(CheckerError::new(ErrorKind::UnknownReference, tok("y"), "y".to_string()));
    e.add_error(CheckerError::new(ErrorKind::NoTypeInfo, tok("x"), "x".to_string()));
    assert_eq!(e.len(), 2);
    assert_eq!(e.get_errors()[1].kind, ErrorKind::NoTypeInfo);
}

#[test]
fn item_pass_names_aliases_and_skips_duplicates() {
    let alias = |n: &str| Item::TypeAliasDecl(TypeAliasDeclaration {
        ident: Identifier::new(tok(n)),
        type_expr: TypeExpression::Primitive(ConcreteType::Float),
    });
    let mut unit = Unit { items: vec![alias("A"), alias("B"), alias("A")] };
    let mut pass = ItemVarIdentifier::new(ErrorCollector::new(), NameScopeBuilder::new(), sid(vec![5]));
    pass.visit_unit(&mut unit);
    assert_eq!(pass.errors.len(), 1);
    assert!(pass.builder.get(&"B".to_string()) == Some(sid(vec![6])));
    assert_eq!(unit.items[0].get_ident().get_id().indices(), &vec![5]);
    assert!(unit.items[2].get_ident().get_id().is_default());
    assert_eq!(pass.into_last_id().indices(), &vec![7]);
    let table = alias_table(&unit);
    assert_eq!(table.len(), 2);
    assert_eq!(table[1].name, "B");
}

#[test]
fn type_pass_resolves_alias_definitions() {
    let mut unit = Unit {
        items: vec![
            Item::TypeAliasDecl(TypeAliasDeclaration {
                ident: Identifier::new(tok("A")),
                type_expr: TypeExpression::Named(Identifier::new(tok("B"))),
            }),
            Item::TypeAliasDecl(TypeAliasDeclaration {
                ident: Identifier::new(tok("B")),
                type_expr: TypeExpression::Named(Identifier::new(tok("C"))),
            }),
        ],
    };
    let mut items = ItemVarIdentifier::new(ErrorCollector::new(), NameScopeBuilder::new(), sid(vec![0]));
    items.visit_unit(&mut unit);
    let table = alias_table(&unit);
    let mut pass = ExpressionTypeIdentifier::new(items.errors, table);
    pass.visit_unit(&mut unit);
    assert_eq!(pass.errors.len(), 1);
    assert_eq!(pass.errors.get_errors()[0].token.text(), "C");
    match &unit.items[0] {
        Item::TypeAliasDecl(a) => match &a.type_expr {
            TypeExpression::Named(n) => assert_eq!(n.get_id().indices(), &vec![1]),
            _ => panic!("not a name"),
        },
        _ => panic!("not an alias"),
    }
}

#[test]
fn concretifier_memoizes_answers() {
    let mut g = TypeGraph::new();
    g.relate(&Term::Var(sid(vec![1])), &Term::Fixed(ConcreteType::Float));
    let mut tc = TypeConcretifier::new(ErrorCollector::new(), g);
    let known = Query { id: sid(vec![1]), token: tok("a"), subject: "variable a".to_string() };
    let unknown = Query { id: sid(vec![2]), token: tok("b"), subject: "variable b".to_string() };
    assert!(tc.infer_var(&known));
    assert!(tc.infer_var(&known));
    assert_eq!(tc.results.len(), 1);
    assert!(!tc.infer_var(&unknown));
    assert!(!tc.infer_var(&unknown));
    assert_eq!(tc.errors.len(), 1);
    assert_eq!(tc.errors.get_errors()[0].kind, ErrorKind::NoTypeInfo);
    let results = tc.into_results();
    assert_eq!(results.get(&sid(vec![1])), Some(ConcreteType::Float));
    assert_eq!(results.get(&sid(vec![2])), None);
}
