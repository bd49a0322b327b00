//! The syntax tree, the tokens it is built from, and the mathematical value
//! that each node stands for.
pub mod token;

use crate::ast::token::Token;
use vstd::prelude::*;

verus! {

/// A whole program: its top-level statements in source order.
#[derive(Debug, PartialEq, Eq)]
pub struct ASTree {
    pub root: Vec<Statement>,
}

impl ASTree {
    pub fn new(root: Vec<Statement>) -> (tree: ASTree)
        ensures
            tree.root == root,
    {
        ASTree { root }
    }
}

#[derive(Debug, PartialEq, Eq)]
#[allow(inconsistent_fields)]
pub enum Statement {
    Function(FunctionStatement),
    Struct(StructStatement),
    Enum(EnumStatement),
    Let(LetStatement),
    /// An expression, with the token that stood where its `;` belongs.
    Expression { expr: Expression, end_token: Token },
    /// Stands for the end of the input; part of no tree.
    EOF,
}

#[derive(Debug, PartialEq, Eq)]
#[allow(inconsistent_fields)]
pub enum Expression {
    Closure(Box<ClosureExpression>),
    Block(Box<BlockExpression>),
    /// Reserved: the parser builds none.
    Call(Box<CallExpression>),
    If(Box<IfExpression>),
    Binary(Box<BinaryExpression>),
    Unary(Box<UnaryExpression>),
    Literal(LiteralExpression),
    Identifier(IdentExpression),
}

#[derive(Debug, PartialEq, Eq)]
pub struct FunctionStatement {
    pub name: String,
    pub arguments: Vec<Parameter>,
    pub return_type: Type,
    pub block: BlockExpression,
}

#[derive(Debug, PartialEq, Eq)]
pub struct StructStatement {
    pub name: String,
    pub fields: Vec<Parameter>,
}

#[derive(Debug, PartialEq, Eq)]
pub struct EnumStatement {
    pub name: String,
    pub variants: Vec<String>,
}

#[derive(Debug, PartialEq, Eq)]
pub struct LetStatement {
    pub name: String,
    pub value: Expression,
}

#[derive(Debug, PartialEq, Eq)]
pub struct ClosureExpression {
    pub arguments: Vec<Parameter>,
    pub block: BlockExpression,
    pub return_type: Type,
}

#[derive(Debug, PartialEq, Eq)]
pub struct CallExpression {
    pub function_name: String,
    pub arguments: Vec<Parameter>,
}

/// A name with its type: a function argument or a struct field.
#[derive(Debug, PartialEq, Eq)]
pub struct Parameter {
    pub name: String,
    pub param_type: Type,
}

/// The statements of a block and, where its last statement was an expression
/// without `;`, that expression as the value of the block.
#[derive(Debug, PartialEq, Eq)]
pub struct BlockExpression {
    pub statements: Vec<Statement>,
    pub expression: Option<Expression>,
}

#[derive(Debug, PartialEq, Eq)]
pub struct IfExpression {
    pub condition: Expression,
    pub body: BlockExpression,
    pub else_body: Option<Box<ElseExpression>>,
}

#[derive(Debug, PartialEq, Eq)]
pub enum ElseExpression {
    Else(BlockExpression),
    ElseIf(IfExpression),
}

#[derive(Debug, PartialEq, Eq)]
pub struct BinaryExpression {
    pub lhs: Expression,
    pub rhs: Expression,
    pub op: BinaryOperator,
}

#[derive(Debug, PartialEq, Eq)]
pub struct UnaryExpression {
    pub rhs: Expression,
    pub op: UnaryOperator,
}

#[derive(Clone, Copy, Debug, PartialEq, Eq, Structural)]
pub enum BinaryOperator {
    Add,
    Sub,
    Mul,
    Div,
    Mod,
    BitOr,
    BitAnd,
    BitXor,
    BitRight,
    BitLeft,
    BoolOr,
    BoolAnd,
    Eq,
    Ne,
    Ge,
    Le,
    Gt,
    Lt,
    Pipe,
}

#[derive(Clone, Copy, Debug, PartialEq, Eq, Structural)]
pub enum UnaryOperator {
    BoolNot,
    BitNot,
    Plus,
    Minus,
}

#[derive(Debug, PartialEq, Eq)]
pub struct LiteralExpression {
    pub kind: LitKind,
}

#[derive(Debug, PartialEq, Eq)]
pub enum LitKind {
    Bool(bool),
    Int(u128),
    /// The digits of the literal as written.
    Float(String),
    Str(String),
    Char(char),
    Tuple(Tuple),
    List(List),
}

#[derive(Debug, PartialEq, Eq)]
pub struct Tuple(pub Vec<Expression>);

#[derive(Debug, PartialEq, Eq)]
pub struct List(pub Vec<Expression>);

#[derive(Debug, PartialEq, Eq)]
pub struct IdentExpression {
    pub name: String,
}

#[derive(Debug, PartialEq, Eq)]
#[allow(inconsistent_fields)]
pub enum Type {
    Bool,
    Int { sign: bool, kind: IntKind },
    Float { kind: FloatKind },
    Str,
    Char,
    Tuple(TupleType),
    List(Box<Type>),
    Fn { arguments: Vec<Type>, return_type: Box<Type> },
    Void,
    UserDefined { name: String },
}

#[derive(Clone, Copy, Debug, PartialEq, Eq, Structural)]
pub enum IntKind {
    Bit8,
    Bit16,
    Bit32,
    Bit64,
}

#[derive(Clone, Copy, Debug, PartialEq, Eq, Structural)]
pub enum FloatKind {
    Bit32,
    Bit64,
}

#[derive(Debug, PartialEq, Eq)]
pub struct TupleType(pub Vec<Type>);

/// What a `Type` stands for.
#[allow(inconsistent_fields)]
pub enum TypeView {
    Bool,
    Int { sign: bool, kind: IntKind },
    Float { kind: FloatKind },
    Str,
    Char,
    Tuple(Seq<TypeView>),
    List(Box<TypeView>),
    Fn { arguments: Seq<TypeView>, return_type: Box<TypeView> },
    Void,
    UserDefined { name: Seq<char> },
}

/// What a `Parameter` stands for.
pub struct ParameterView {
    pub name: Seq<char>,
    pub param_type: TypeView,
}

/// What a `Statement` stands for.
#[allow(inconsistent_fields)]
pub enum StatementView {
    Function {
        name: Seq<char>,
        arguments: Seq<ParameterView>,
        return_type: TypeView,
        block: BlockView,
    },
    Struct { name: Seq<char>, fields: Seq<ParameterView> },
    Enum { name: Seq<char>, variants: Seq<Seq<char>> },
    Let { name: Seq<char>, value: ExpressionView },
    Expression { expr: ExpressionView, end_token: Token },
    EOF,
}

/// What an `Expression` stands for.
#[allow(inconsistent_fields)]
pub enum ExpressionView {
    Closure { arguments: Seq<ParameterView>, block: Box<BlockView>, return_type: TypeView },
    Block(Box<BlockView>),
    Call { function_name: Seq<char>, arguments: Seq<ParameterView> },
    If(Box<IfView>),
    Binary { lhs: Box<ExpressionView>, rhs: Box<ExpressionView>, op: BinaryOperator },
    Unary { rhs: Box<ExpressionView>, op: UnaryOperator },
    Literal(LiteralView),
    Identifier { name: Seq<char> },
}

/// What a `BlockExpression` stands for.
pub struct BlockView {
    pub statements: Seq<StatementView>,
    pub expression: Option<ExpressionView>,
}

/// What an `IfExpression` stands for.
pub struct IfView {
    pub condition: ExpressionView,
    pub body: BlockView,
    pub else_body: Option<Box<ElseView>>,
}

/// What an `ElseExpression` stands for.
pub enum ElseView {
    Else(BlockView),
    ElseIf(IfView),
}

/// What a `LiteralExpression` stands for.
pub enum LiteralView {
    Bool(bool),
    Int(u128),
    Float(Seq<char>),
    Str(Seq<char>),
    Char(char),
    Tuple(Seq<ExpressionView>),
    List(Seq<ExpressionView>),
}

/// The values of a sequence of types, in order.
pub open spec fn type_views(types: Seq<Type>) -> Seq<TypeView>
    decreases types,
{
    Seq::new(
        types.len(),
        |i: int|
            if 0 <= i < types.len() {
                types[i].model()
            } else {
                TypeView::Void
            },
    )
}

/// The values of a sequence of parameters, in order.
pub open spec fn parameter_views(parameters: Seq<Parameter>) -> Seq<ParameterView> {
    Seq::new(parameters.len(), |i: int| parameters[i].model())
}

/// The values of a sequence of statements, in order.
pub open spec fn statement_views(statements: Seq<Statement>) -> Seq<StatementView>
    decreases statements,
{
    Seq::new(
        statements.len(),
        |i: int|
            if 0 <= i < statements.len() {
                statements[i].model()
            } else {
                StatementView::EOF
            },
    )
}

/// The values of a sequence of expressions, in order.
pub open spec fn expression_views(expressions: Seq<Expression>) -> Seq<ExpressionView>
    decreases expressions,
{
    Seq::new(
        expressions.len(),
        |i: int|
            if 0 <= i < expressions.len() {
                expressions[i].model()
            } else {
                ExpressionView::Identifier { name: Seq::empty() }
            },
    )
}

/// The texts of a sequence of strings, in order.
pub open spec fn string_views(strings: Seq<String>) -> Seq<Seq<char>> {
    Seq::new(strings.len(), |i: int| strings[i]@)
}

impl Type {
    pub open spec fn model(&self) -> TypeView
        decreases self,
    {
        match self {
            Type::Bool => TypeView::Bool,
            Type::Int { sign, kind } => TypeView::Int { sign: *sign, kind: *kind },
            Type::Float { kind } => TypeView::Float { kind: *kind },
            Type::Str => TypeView::Str,
            Type::Char => TypeView::Char,
            Type::Tuple(items) => TypeView::Tuple(type_views(items.0@)),
            Type::List(item) => TypeView::List(Box::new(item.model())),
            Type::Fn { arguments, return_type } => TypeView::Fn {
                arguments: type_views(arguments@),
                return_type: Box::new(return_type.model()),
            },
            Type::Void => TypeView::Void,
            Type::UserDefined { name } => TypeView::UserDefined { name: name@ },
        }
    }
}

impl Parameter {
    pub open spec fn model(&self) -> ParameterView {
        ParameterView { name: self.name@, param_type: self.param_type.model() }
    }
}

impl Statement {
    pub open spec fn model(&self) -> StatementView
        decreases self,
    {
        match self {
            Statement::Function(item) => StatementView::Function {
                name: item.name@,
                arguments: parameter_views(item.arguments@),
                return_type: item.return_type.model(),
                block: item.block.model(),
            },
            Statement::Struct(item) => item.model(),
            Statement::Enum(item) => item.model(),
            Statement::Let(item) => StatementView::Let {
                name: item.name@,
                value: item.value.model(),
            },
            Statement::Expression { expr, end_token } => StatementView::Expression {
                expr: expr.model(),
                end_token: *end_token,
            },
            Statement::EOF => StatementView::EOF,
        }
    }
}

impl FunctionStatement {
    pub open spec fn model(&self) -> StatementView {
        StatementView::Function {
            name: self.name@,
            arguments: parameter_views(self.arguments@),
            return_type: self.return_type.model(),
            block: self.block.model(),
        }
    }
}

impl StructStatement {
    pub open spec fn model(&self) -> StatementView {
        StatementView::Struct { name: self.name@, fields: parameter_views(self.fields@) }
    }
}

impl EnumStatement {
    pub open spec fn model(&self) -> StatementView {
        StatementView::Enum { name: self.name@, variants: string_views(self.variants@) }
    }
}

impl LetStatement {
    pub open spec fn model(&self) -> StatementView {
        StatementView::Let { name: self.name@, value: self.value.model() }
    }
}

impl Expression {
    pub open spec fn model(&self) -> ExpressionView
        decreases self,
    {
        match self {
            Expression::Closure(closure) => ExpressionView::Closure {
                arguments: parameter_views(closure.arguments@),
                block: Box::new(closure.block.model()),
                return_type: closure.return_type.model(),
            },
            Expression::Block(block) => ExpressionView::Block(Box::new(block.model())),
            Expression::Call(call) => ExpressionView::Call {
                function_name: call.function_name@,
                arguments: parameter_views(call.arguments@),
            },
            Expression::If(item) => ExpressionView::If(Box::new(item.model())),
            Expression::Binary(binary) => ExpressionView::Binary {
                lhs: Box::new(binary.lhs.model()),
                rhs: Box::new(binary.rhs.model()),
                op: binary.op,
            },
            Expression::Unary(unary) => ExpressionView::Unary {
                rhs: Box::new(unary.rhs.model()),
                op: unary.op,
            },
            Expression::Literal(literal) => ExpressionView::Literal(literal.model()),
            Expression::Identifier(ident) => ExpressionView::Identifier { name: ident.name@ },
        }
    }
}

impl ClosureExpression {
    pub open spec fn model(&self) -> ExpressionView {
        ExpressionView::Closure {
            arguments: parameter_views(self.arguments@),
            block: Box::new(self.block.model()),
            return_type: self.return_type.model(),
        }
    }
}

impl BlockExpression {
    pub open spec fn model(&self) -> BlockView
        decreases self,
    {
        BlockView {
            statements: statement_views(self.statements@),
            expression: match self.expression {
                Some(expression) => Some(expression.model()),
                None => None,
            },
        }
    }
}

impl IfExpression {
    pub open spec fn model(&self) -> IfView
        decreases self,
    {
        IfView {
            condition: self.condition.model(),
            body: self.body.model(),
            else_body: match self.else_body {
                Some(other) => Some(Box::new(other.model())),
                None => None,
            },
        }
    }
}

impl ElseExpression {
    pub open spec fn model(&self) -> ElseView
        decreases self,
    {
        match self {
            ElseExpression::Else(block) => ElseView::Else(block.model()),
            ElseExpression::ElseIf(item) => ElseView::ElseIf(item.model()),
        }
    }
}

impl LiteralExpression {
    pub open spec fn model(&self) -> LiteralView
        decreases self,
    {
        match self.kind {
            LitKind::Bool(value) => LiteralView::Bool(value),
            LitKind::Int(value) => LiteralView::Int(value),
            LitKind::Float(text) => LiteralView::Float(text@),
            LitKind::Str(text) => LiteralView::Str(text@),
            LitKind::Char(value) => LiteralView::Char(value),
            LitKind::Tuple(items) => LiteralView::Tuple(expression_views(items.0@)),
            LitKind::List(items) => LiteralView::List(expression_views(items.0@)),
        }
    }
}

impl DeepView for Type {
    type V = TypeView;

    open spec fn deep_view(&self) -> TypeView {
        self.model()
    }
}

impl DeepView for Parameter {
    type V = ParameterView;

    open spec fn deep_view(&self) -> ParameterView {
        self.model()
    }
}

impl DeepView for Statement {
    type V = StatementView;

    open spec fn deep_view(&self) -> StatementView {
        self.model()
    }
}

impl DeepView for FunctionStatement {
    type V = StatementView;

    open spec fn deep_view(&self) -> StatementView {
        self.model()
    }
}

impl DeepView for StructStatement {
    type V = StatementView;

    open spec fn deep_view(&self) -> StatementView {
        self.model()
    }
}

impl DeepView for EnumStatement {
    type V = StatementView;

    open spec fn deep_view(&self) -> StatementView {
        self.model()
    }
}

impl DeepView for LetStatement {
    type V = StatementView;

    open spec fn deep_view(&self) -> StatementView {
        self.model()
    }
}

impl DeepView for Expression {
    type V = ExpressionView;

    open spec fn deep_view(&self) -> ExpressionView {
        self.model()
    }
}

impl DeepView for ClosureExpression {
    type V = ExpressionView;

    open spec fn deep_view(&self) -> ExpressionView {
        self.model()
    }
}

impl DeepView for BlockExpression {
    type V = BlockView;

    open spec fn deep_view(&self) -> BlockView {
        self.model()
    }
}

impl DeepView for IfExpression {
    type V = IfView;

    open spec fn deep_view(&self) -> IfView {
        self.model()
    }
}

impl DeepView for LiteralExpression {
    type V = LiteralView;

    open spec fn deep_view(&self) -> LiteralView {
        self.model()
    }
}

impl DeepView for Token {
    type V = Token;

    open spec fn deep_view(&self) -> Token {
        *self
    }
}

impl DeepView for ASTree {
    type V = Seq<StatementView>;

    open spec fn deep_view(&self) -> Seq<StatementView> {
        statement_views(self.root@)
    }
}

/// Appending a type appends its value.
pub proof fn lemma_push_type(types: Seq<Type>, item: Type)
    ensures
        type_views(types.push(item)) == type_views(types).push(item.model()),
{
    assert(type_views(types.push(item)) =~= type_views(types).push(item.model()));
}

/// Appending a parameter appends its value.
pub proof fn lemma_push_parameter(parameters: Seq<Parameter>, item: Parameter)
    ensures
        parameter_views(parameters.push(item)) == parameter_views(parameters).push(item.model()),
{
    assert(parameter_views(parameters.push(item)) =~= parameter_views(parameters).push(
        item.model(),
    ));
}

/// Appending a statement appends its value.
pub proof fn lemma_push_statement(statements: Seq<Statement>, item: Statement)
    ensures
        statement_views(statements.push(item)) == statement_views(statements).push(item.model()),
{
    assert(statement_views(statements.push(item)) =~= statement_views(statements).push(
        item.model(),
    ));
}

/// Appending an expression appends its value.
pub proof fn lemma_push_expression(expressions: Seq<Expression>, item: Expression)
    ensures
        expression_views(expressions.push(item)) == expression_views(expressions).push(
            item.model(),
        ),
{
    assert(expression_views(expressions.push(item)) =~= expression_views(expressions).push(
        item.model(),
    ));
}

/// Appending a string appends its text.
pub proof fn lemma_push_string(strings: Seq<String>, item: String)
    ensures
        string_views(strings.push(item)) == string_views(strings).push(item@),
{
    assert(string_views(strings.push(item)) =~= string_views(strings).push(item@));
}

} // verus!
