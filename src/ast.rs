//! Syntax tree of a compilation unit, with assignable identifier slots.
use vstd::prelude::*;
use crate::scoped_id::ScopedId;
use crate::token::Token;
use crate::types::{ConcreteType, Operator};

verus! {

/// A name in the source, paired with the identifier it resolves to.
#[derive(Debug)]
pub struct Identifier {
    pub token: Token,
    /// Set once, by the pass that resolves the name.
    pub id: ScopedId,
}

impl Identifier {
    /// An unresolved name.
    pub fn new(token: Token) -> (r: Identifier)
        ensures
            r.token == token,
            r.id@ == Seq::<u64>::empty(),
    {
        Identifier { token, id: ScopedId::new() }
    }

    /// The name's text.
    pub fn get_name(&self) -> (r: &str)
        ensures
            r@ == self.token.text@,
    {
        self.token.text()
    }

    /// The name's token.
    pub fn get_token(&self) -> (r: &Token)
        ensures
            *r == self.token,
    {
        &self.token
    }

    /// The identifier this name resolves to.
    pub fn get_id(&self) -> (r: &ScopedId)
        ensures
            r@ == self.id@,
    {
        &self.id
    }

    /// Resolves the name. An assigned name is never re-assigned to another id.
    pub fn set_id(&mut self, id: ScopedId)
        requires
            id@.len() > 0,
            old(self).id@.len() == 0 || old(self).id@ == id@,
        ensures
            final(self).id@ == id@,
            final(self).token == old(self).token,
    {
        self.id = id;
    }
}

impl From<Identifier> for Token {
    fn from(i: Identifier) -> (r: Token) {
        i.token
    }
}

impl vstd::std_specs::convert::FromSpecImpl<Identifier> for Token {
    open spec fn obeys_from_spec() -> bool {
        true
    }

    open spec fn from_spec(i: Identifier) -> Token {
        i.token
    }
}

/// A type written in the source.
#[derive(Debug)]
pub enum TypeExpression {
    /// A name, resolved against declared type aliases.
    Named(Identifier),
    /// A built-in type.
    Primitive(ConcreteType),
    /// A function type.
    Function(FnTypeExpression),
}

/// A function type: parameter types and return type.
#[derive(Debug)]
pub struct FnTypeExpression {
    pub params: Vec<TypeExpression>,
    pub return_type: Box<TypeExpression>,
}

/// A literal value.
#[derive(Debug)]
pub struct Literal {
    pub token: Token,
    pub ty: ConcreteType,
}

#[derive(Debug)]
pub struct BinaryOperation {
    pub op: Operator,
    pub left: Box<Expression>,
    pub right: Box<Expression>,
}

#[derive(Debug)]
pub struct UnaryOperation {
    pub op: Operator,
    pub expression: Box<Expression>,
}

/// `if condition => true_expr else else_expr`
#[derive(Debug)]
pub struct IfExpression {
    pub condition: Box<Expression>,
    pub true_expr: Box<Expression>,
    pub else_expr: Box<Expression>,
}

/// A call of a named function with positional arguments.
#[derive(Debug)]
pub struct FnCall {
    pub ident: Identifier,
    pub args: Vec<Expression>,
}

/// `lvalue = rvalue`
#[derive(Debug)]
pub struct Assignment {
    pub lvalue: Identifier,
    pub rvalue: Box<Expression>,
}

/// `let mut? ident (: type_decl)? = value`
#[derive(Debug)]
pub struct Declaration {
    pub mutable: bool,
    pub ident: Identifier,
    pub type_decl: Option<TypeExpression>,
    pub value: Box<Expression>,
}

#[derive(Debug)]
pub enum Expression {
    Literal(Literal),
    VariableRef(Identifier),
    BinaryOp(BinaryOperation),
    UnaryOp(UnaryOperation),
    IfExpression(IfExpression),
    FnCall(FnCall),
    Assignment(Assignment),
    Declaration(Declaration),
}

/// `return value?`
#[derive(Debug)]
pub struct Return {
    pub value: Option<Box<Expression>>,
}

/// `if condition block (else block)?`
#[derive(Debug)]
pub struct IfBlock {
    pub condition: Expression,
    pub block: Block,
    pub else_block: Option<Block>,
}

#[derive(Debug)]
pub enum Statement {
    Expression(Expression),
    Return(Return),
    DoBlock(Block),
    IfBlock(IfBlock),
}

/// Collection of statements which may have an expression value.
#[derive(Debug)]
pub struct Block {
    /// Statements in the block
    pub statements: Vec<Statement>,
    /// Identifier of the block's lexical scope.
    pub scope_id: ScopedId,
}

/// A function parameter with its optional annotation.
#[derive(Debug)]
pub struct Parameter {
    pub ident: Identifier,
    pub type_expr: Option<TypeExpression>,
}

/// `fn name(params) (-> return_type)? block`
#[derive(Debug)]
pub struct BlockFnDeclaration {
    pub ident: Identifier,
    pub params: Vec<Parameter>,
    pub return_type: Option<TypeExpression>,
    pub block: Block,
}

/// `typedef name = type_expr`
#[derive(Debug)]
pub struct TypeAliasDeclaration {
    pub ident: Identifier,
    pub type_expr: TypeExpression,
}

#[derive(Debug)]
pub enum Item {
    BlockFnDecl(BlockFnDeclaration),
    TypeAliasDecl(TypeAliasDeclaration),
}

/// Root of the syntax tree.
#[derive(Debug)]
pub struct Unit {
    pub items: Vec<Item>,
}

impl Item {
    pub open spec fn ident(&self) -> Identifier {
        match self {
            Item::BlockFnDecl(f) => f.ident,
            Item::TypeAliasDecl(t) => t.ident,
        }
    }

    /// The declared name.
    pub fn get_ident(&self) -> (r: &Identifier)
        ensures
            *r == self.ident(),
    {
        match self {
            Item::BlockFnDecl(f) => &f.ident,
            Item::TypeAliasDecl(t) => &t.ident,
        }
    }
}

/// Whether an expression produces a value.
pub open spec fn expr_has_value(e: Expression) -> bool {
    match e {
        Expression::Assignment(_) | Expression::Declaration(_) => false,
        _ => true,
    }
}

/// Whether a statement produces a value.
pub open spec fn stmt_has_value(s: Statement) -> bool
    decreases s,
{
    match s {
        Statement::Expression(e) => expr_has_value(e),
        Statement::Return(_) => false,
        Statement::DoBlock(b) => block_has_value(b),
        Statement::IfBlock(i) => match i.else_block {
            Some(eb) => block_has_value(i.block) && block_has_value(eb),
            None => false,
        },
    }
}

/// A block has a value iff its last statement does.
pub open spec fn block_has_value(b: Block) -> bool
    decreases b,
{
    b.statements@.len() > 0 && stmt_has_value(b.statements@.last())
}

impl Expression {
    /// Whether this expression produces a value.
    pub fn has_value(&self) -> (r: bool)
        ensures
            r == expr_has_value(*self),
    {
        match self {
            Expression::Assignment(_) | Expression::Declaration(_) => false,
            _ => true,
        }
    }
}

impl Statement {
    /// Whether this statement produces a value.
    pub fn has_value(&self) -> (r: bool)
        ensures
            r == stmt_has_value(*self),
        decreases *self,
    {
        match self {
            Statement::Expression(e) => e.has_value(),
            Statement::Return(_) => false,
            Statement::DoBlock(b) => b.has_value(),
            Statement::IfBlock(i) => match &i.else_block {
                Some(eb) => i.block.has_value() && eb.has_value(),
                None => false,
            },
        }
    }
}

impl Block {
    /// A block of the given statements with an unassigned scope id.
    pub fn new(statements: Vec<Statement>) -> (r: Block)
        ensures
            r.statements == statements,
            r.scope_id@ == Seq::<u64>::empty(),
    {
        Block { statements, scope_id: ScopedId::new() }
    }

    /// Whether the block produces a value: its last statement does.
    pub fn has_value(&self) -> (r: bool)
        ensures
            r == block_has_value(*self),
        decreases *self,
    {
        let n = self.statements.len();
        if n == 0 {
            return false;
        }
        self.statements[n - 1].has_value()
    }

    /// The statements of the block.
    pub fn get_stmts(&self) -> (r: &Vec<Statement>)
        ensures
            *r == self.statements,
    {
        &self.statements
    }

    /// The identifier of the block's scope.
    pub fn get_id(&self) -> (r: &ScopedId)
        ensures
            r@ == self.scope_id@,
    {
        &self.scope_id
    }

    /// Assigns the block's scope identifier.
    pub fn set_id(&mut self, id: ScopedId)
        ensures
            final(self).scope_id@ == id@,
            final(self).statements == old(self).statements,
    {
        self.scope_id = id;
    }
}

} // verus!
