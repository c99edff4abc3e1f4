//! The abstract syntax tree that the parser builds and the code generator reads.
use vstd::prelude::*;

verus! {

/// A whole compilation unit.
#[derive(Debug, PartialEq)]
pub struct Program {
    pub body: Body,
}

/// A block: the statements of the top level, of a function or of a branch.
#[derive(Debug, PartialEq)]
pub struct Body {
    pub statements: Vec<Statement>,
}

/// One statement of a block.
#[derive(Debug, PartialEq)]
pub enum Statement {
    Print(Expression),
    Return(Expression),
    If { condition: Expression, body: Body, elif: Vec<(Expression, Body)>, else_body: Option<Body> },
    Def { name: String, params: Vec<String>, body: Body },
}

/// An expression: a binary operator on two operands, a call, or a value.
#[derive(Debug, PartialEq)]
pub enum Expression {
    EqEq(Box<Expression>, Box<Expression>),
    Ne(Box<Expression>, Box<Expression>),
    Lt(Box<Expression>, Box<Expression>),
    Gt(Box<Expression>, Box<Expression>),
    Leq(Box<Expression>, Box<Expression>),
    Geq(Box<Expression>, Box<Expression>),
    Add(Box<Expression>, Box<Expression>),
    Sub(Box<Expression>, Box<Expression>),
    Mult(Box<Expression>, Box<Expression>),
    Div(Box<Expression>, Box<Expression>),
    Mod(Box<Expression>, Box<Expression>),
    And(Box<Expression>, Box<Expression>),
    Or(Box<Expression>, Box<Expression>),
    Call { name: String, params: Vec<Expression> },
    Simple(Value),
}

/// A leaf of an expression.
#[derive(Debug, PartialEq)]
pub enum Value {
    Integer(u32),
    Variable(String),
    /// A parenthesised expression, which overrides the default precedence.
    Complex(Box<Expression>),
}

/// The binary operators of the language.
pub enum BinaryOp {
    EqEq,
    Ne,
    Lt,
    Gt,
    Leq,
    Geq,
    Add,
    Sub,
    Mult,
    Div,
    Mod,
    And,
    Or,
}

/// The mathematical value of a [`Value`].
pub enum ValueView {
    Integer(u32),
    Variable(Seq<char>),
    Complex(Box<ExpressionView>),
}

/// The mathematical value of an [`Expression`]: all binary operators share one shape.
pub enum ExpressionView {
    Binary { op: BinaryOp, left: Box<ExpressionView>, right: Box<ExpressionView> },
    Call { name: Seq<char>, params: Seq<ExpressionView> },
    Simple(ValueView),
}

/// The mathematical value of a [`Statement`]; a block is the sequence of its statements.
pub enum StatementView {
    Print(ExpressionView),
    Return(ExpressionView),
    If {
        condition: ExpressionView,
        body: Seq<StatementView>,
        elif: Seq<(ExpressionView, Seq<StatementView>)>,
        else_body: Option<Seq<StatementView>>,
    },
    Def { name: Seq<char>, params: Seq<Seq<char>>, body: Seq<StatementView> },
}

/// The expression that applies `op` to two operands.
pub open spec fn binary(op: BinaryOp, left: ExpressionView, right: ExpressionView) -> ExpressionView {
    ExpressionView::Binary { op, left: Box::new(left), right: Box::new(right) }
}

/// The value of `v`.
pub open spec fn value_view(v: Value) -> ValueView
    decreases v,
{
    match v {
        Value::Integer(i) => ValueView::Integer(i),
        Value::Variable(name) => ValueView::Variable(name@),
        Value::Complex(inner) => ValueView::Complex(Box::new(expression_view(*inner))),
    }
}

/// The value of `e`.
pub open spec fn expression_view(e: Expression) -> ExpressionView
    decreases e,
{
    match e {
        Expression::EqEq(l, r) => binary(BinaryOp::EqEq, expression_view(*l), expression_view(*r)),
        Expression::Ne(l, r) => binary(BinaryOp::Ne, expression_view(*l), expression_view(*r)),
        Expression::Lt(l, r) => binary(BinaryOp::Lt, expression_view(*l), expression_view(*r)),
        Expression::Gt(l, r) => binary(BinaryOp::Gt, expression_view(*l), expression_view(*r)),
        Expression::Leq(l, r) => binary(BinaryOp::Leq, expression_view(*l), expression_view(*r)),
        Expression::Geq(l, r) => binary(BinaryOp::Geq, expression_view(*l), expression_view(*r)),
        Expression::Add(l, r) => binary(BinaryOp::Add, expression_view(*l), expression_view(*r)),
        Expression::Sub(l, r) => binary(BinaryOp::Sub, expression_view(*l), expression_view(*r)),
        Expression::Mult(l, r) => binary(BinaryOp::Mult, expression_view(*l), expression_view(*r)),
        Expression::Div(l, r) => binary(BinaryOp::Div, expression_view(*l), expression_view(*r)),
        Expression::Mod(l, r) => binary(BinaryOp::Mod, expression_view(*l), expression_view(*r)),
        Expression::And(l, r) => binary(BinaryOp::And, expression_view(*l), expression_view(*r)),
        Expression::Or(l, r) => binary(BinaryOp::Or, expression_view(*l), expression_view(*r)),
        Expression::Call { name, params } => ExpressionView::Call {
            name: name@,
            params: expression_views(params@),
        },
        Expression::Simple(value) => ExpressionView::Simple(value_view(value)),
    }
}

/// The values of a sequence of expressions, in order.
pub open spec fn expression_views(items: Seq<Expression>) -> Seq<ExpressionView>
    decreases items,
{
    if items.len() == 0 {
        Seq::empty()
    } else {
        expression_views(items.drop_last()).push(expression_view(items.last()))
    }
}

impl View for Value {
    type V = ValueView;

    open spec fn view(&self) -> ValueView {
        value_view(*self)
    }
}

impl View for Expression {
    type V = ExpressionView;

    open spec fn view(&self) -> ExpressionView {
        expression_view(*self)
    }
}

/// The values of a sequence of names, in order.
pub open spec fn name_views(names: Seq<String>) -> Seq<Seq<char>> {
    names.map_values(|name: String| name@)
}

/// The value of `s`.
pub open spec fn statement_view(s: Statement) -> StatementView
    decreases s,
{
    match s {
        Statement::Print(e) => StatementView::Print(e@),
        Statement::Return(e) => StatementView::Return(e@),
        Statement::If { condition, body, elif, else_body } => StatementView::If {
            condition: condition@,
            body: statement_views(body.statements@),
            elif: branch_views(elif@),
            else_body: match else_body {
                Some(b) => Some(statement_views(b.statements@)),
                None => None,
            },
        },
        Statement::Def { name, params, body } => StatementView::Def {
            name: name@,
            params: name_views(params@),
            body: statement_views(body.statements@),
        },
    }
}

/// The values of a sequence of statements, in order.
pub open spec fn statement_views(items: Seq<Statement>) -> Seq<StatementView>
    decreases items,
{
    if items.len() == 0 {
        Seq::empty()
    } else {
        statement_views(items.drop_last()).push(statement_view(items.last()))
    }
}

/// The values of a sequence of `elif` branches, in order.
pub open spec fn branch_views(items: Seq<(Expression, Body)>) -> Seq<(ExpressionView, Seq<StatementView>)>
    decreases items,
{
    if items.len() == 0 {
        Seq::empty()
    } else {
        branch_views(items.drop_last()).push(
            (items.last().0@, statement_views(items.last().1.statements@)),
        )
    }
}

impl View for Body {
    type V = Seq<StatementView>;

    open spec fn view(&self) -> Seq<StatementView> {
        statement_views(self.statements@)
    }
}

impl View for Statement {
    type V = StatementView;

    open spec fn view(&self) -> StatementView {
        statement_view(*self)
    }
}

impl View for Program {
    type V = Seq<StatementView>;

    open spec fn view(&self) -> Seq<StatementView> {
        self.body@
    }
}

/// `expression_views` keeps the length and maps each position to its value.
pub proof fn lemma_expression_views(items: Seq<Expression>)
    ensures
        expression_views(items).len() == items.len(),
        forall|i: int| 0 <= i < items.len() ==> (#[trigger] expression_views(items)[i]) == items[i]@,
    decreases items.len(),
{
    if items.len() > 0 {
        lemma_expression_views(items.drop_last());
        assert(expression_views(items) == expression_views(items.drop_last()).push(
            expression_view(items.last()),
        ));
    } else {
        assert(expression_views(items) == Seq::<ExpressionView>::empty());
    }
}

/// `statement_views` keeps the length and maps each position to its value.
pub proof fn lemma_statement_views(items: Seq<Statement>)
    ensures
        statement_views(items).len() == items.len(),
        forall|i: int| 0 <= i < items.len() ==> (#[trigger] statement_views(items)[i]) == items[i]@,
    decreases items.len(),
{
    if items.len() > 0 {
        lemma_statement_views(items.drop_last());
        assert(statement_views(items) == statement_views(items.drop_last()).push(
            statement_view(items.last()),
        ));
    } else {
        assert(statement_views(items) == Seq::<StatementView>::empty());
    }
}

/// `branch_views` keeps the length and maps each position to its value.
pub proof fn lemma_branch_views(items: Seq<(Expression, Body)>)
    ensures
        branch_views(items).len() == items.len(),
        forall|i: int|
            0 <= i < items.len() ==> (#[trigger] branch_views(items)[i]) == (items[i].0@, items[i].1@),
    decreases items.len(),
{
    if items.len() > 0 {
        lemma_branch_views(items.drop_last());
        assert(branch_views(items) == branch_views(items.drop_last()).push(
            (items.last().0@, items.last().1@),
        ));
    } else {
        assert(branch_views(items) == Seq::<(ExpressionView, Seq<StatementView>)>::empty());
    }
}

/// Expression values commute with appending an expression.
pub proof fn lemma_expression_views_push(items: Seq<Expression>, item: Expression)
    ensures
        expression_views(items.push(item)) == expression_views(items).push(item@),
{
    assert(items.push(item).drop_last() =~= items);
}

/// Statement values commute with appending a statement.
pub proof fn lemma_statement_views_push(items: Seq<Statement>, item: Statement)
    ensures
        statement_views(items.push(item)) == statement_views(items).push(item@),
{
    assert(items.push(item).drop_last() =~= items);
}

/// Branch values commute with appending a branch.
pub proof fn lemma_branch_views_push(items: Seq<(Expression, Body)>, item: (Expression, Body))
    ensures
        branch_views(items.push(item)) == branch_views(items).push((item.0@, item.1@)),
{
    assert(items.push(item).drop_last() =~= items);
}

/// Name values commute with appending a name.
pub proof fn lemma_name_views_push(names: Seq<String>, name: String)
    ensures
        name_views(names.push(name)) == name_views(names).push(name@),
{
    assert(name_views(names.push(name)) =~= name_views(names).push(name@));
}

} // verus!
