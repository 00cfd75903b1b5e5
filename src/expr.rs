use vstd::prelude::*;

verus! {

/// The binary operators of the expression language.
#[derive(Clone, Copy, Debug, PartialEq, Eq, Structural)]
pub enum BinaryOperator {
    Add,
    Subtract,
    Multiply,
    Divide,
    Modulo,
    Power,
}

impl BinaryOperator {
    /// The display symbol of the operator.
    pub open spec fn spec_symbol(self) -> char {
        match self {
            BinaryOperator::Add => '+',
            BinaryOperator::Subtract => '-',
            BinaryOperator::Multiply => '*',
            BinaryOperator::Divide => '/',
            BinaryOperator::Modulo => '%',
            BinaryOperator::Power => '^',
        }
    }

    pub fn symbol(&self) -> (r: char)
        ensures
            r == self.spec_symbol(),
    {
        match self {
            BinaryOperator::Add => '+',
            BinaryOperator::Subtract => '-',
            BinaryOperator::Multiply => '*',
            BinaryOperator::Divide => '/',
            BinaryOperator::Modulo => '%',
            BinaryOperator::Power => '^',
        }
    }
}


/// The prefix operators of the expression language.
#[derive(Clone, Copy, Debug, PartialEq, Eq, Structural)]
pub enum UnaryOperator {
    Minus,
}

/// A variable name together with the expression it was bound to.
#[derive(Debug)]
pub struct Variable {
    pub name: String,
    pub expr: Box<Expr>,
}

/// An expression tree. Each node owns its children.
///
/// Numbers stand as written: an integer by its value, a float by its literal
/// text. A variable that the environment binds carries the bound expression,
/// whose value it has; one that it does not bind has no value.
#[allow(inconsistent_fields)]
#[derive(Debug)]
pub enum Expr {
    Integer { value: i32 },
    Float { literal: String },
    BoundVariable { variable: Variable },
    UnboundVariable { name: String },
    BinaryOperation { lhs: Box<Expr>, op: BinaryOperator, rhs: Box<Expr> },
    UnaryOperation { op: UnaryOperator, expr: Box<Expr> },
    Assignment { identifier: String, expr: Box<Expr> },
}

/// The mathematical model of an expression tree: names as character sequences.
pub enum ExprModel {
    Integer(i32),
    Float(Seq<char>),
    BoundVariable(Seq<char>, Box<ExprModel>),
    UnboundVariable(Seq<char>),
    BinaryOperation(Box<ExprModel>, BinaryOperator, Box<ExprModel>),
    UnaryOperation(UnaryOperator, Box<ExprModel>),
    Assignment(Seq<char>, Box<ExprModel>),
}

pub open spec fn model(e: Expr) -> ExprModel
    decreases e,
{
    match e {
        Expr::Integer { value } => ExprModel::Integer(value),
        Expr::Float { literal } => ExprModel::Float(literal@),
        Expr::BoundVariable { variable } => ExprModel::BoundVariable(
            variable.name@,
            Box::new(model(*variable.expr)),
        ),
        Expr::UnboundVariable { name } => ExprModel::UnboundVariable(name@),
        Expr::BinaryOperation { lhs, op, rhs } => ExprModel::BinaryOperation(
            Box::new(model(*lhs)),
            op,
            Box::new(model(*rhs)),
        ),
        Expr::UnaryOperation { op, expr } => ExprModel::UnaryOperation(op, Box::new(model(*expr))),
        Expr::Assignment { identifier, expr } => ExprModel::Assignment(
            identifier@,
            Box::new(model(*expr)),
        ),
    }
}

impl View for Expr {
    type V = ExprModel;

    open spec fn view(&self) -> ExprModel {
        model(*self)
    }
}

impl Expr {
    /// A copy of the tree.
    pub fn duplicate(&self) -> (r: Expr)
        ensures
            r@ == self@,
        decreases self,
    {
        match self {
            Expr::Integer { value } => Expr::Integer { value: *value },
            Expr::Float { literal } => Expr::Float { literal: literal.clone() },
            Expr::BoundVariable { variable } => Expr::BoundVariable {
                variable: Variable {
                    name: variable.name.clone(),
                    expr: Box::new(variable.expr.duplicate()),
                },
            },
            Expr::UnboundVariable { name } => Expr::UnboundVariable { name: name.clone() },
            Expr::BinaryOperation { lhs, op, rhs } => Expr::BinaryOperation {
                lhs: Box::new(lhs.duplicate()),
                op: *op,
                rhs: Box::new(rhs.duplicate()),
            },
            Expr::UnaryOperation { op, expr } => Expr::UnaryOperation {
                op: *op,
                expr: Box::new(expr.duplicate()),
            },
            Expr::Assignment { identifier, expr } => Expr::Assignment {
                identifier: identifier.clone(),
                expr: Box::new(expr.duplicate()),
            },
        }
    }
}

} // verus!
