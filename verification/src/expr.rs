//! Arithmetic terms and comparisons: what an input evaluates to, as a tree.

use vstd::prelude::*;
use crate::error::{EvalError, EvalErrorView};
use crate::text::same_text;
use crate::token::{Number, NumberView};

verus! {

/// The named constants.
#[derive(Clone, Copy, Debug, PartialEq, Eq, Structural)]
pub enum Constant {
    /// The ratio of a circle's circumference to its diameter.
    Pi,
    /// Euler's number.
    E,
}

impl Constant {
    /// The constant that `name` denotes, if any.
    pub open spec fn named(name: Seq<char>) -> Option<Constant> {
        if name == "pi"@ {
            Some(Constant::Pi)
        } else if name == "e"@ {
            Some(Constant::E)
        } else {
            None
        }
    }

    /// Looks a constant up by its name.
    pub fn lookup(name: &str) -> (r: Option<Constant>)
        ensures
            r == Constant::named(name@),
    {
        if same_text(name, "pi") {
            Some(Constant::Pi)
        } else if same_text(name, "e") {
            Some(Constant::E)
        } else {
            None
        }
    }
}

/// The functions of one argument.
#[derive(Clone, Copy, Debug, PartialEq, Eq, Structural)]
pub enum Function {
    Sin,
    Cos,
    Tan,
    Asin,
    Acos,
    Atan,
    Sqrt,
    Abs,
    Ln,
    Exp,
}

impl Function {
    /// The function that `name` denotes, if any.
    pub open spec fn named(name: Seq<char>) -> Option<Function> {
        if name == "sin"@ {
            Some(Function::Sin)
        } else if name == "cos"@ {
            Some(Function::Cos)
        } else if name == "tan"@ {
            Some(Function::Tan)
        } else if name == "asin"@ {
            Some(Function::Asin)
        } else if name == "acos"@ {
            Some(Function::Acos)
        } else if name == "atan"@ {
            Some(Function::Atan)
        } else if name == "sqrt"@ {
            Some(Function::Sqrt)
        } else if name == "abs"@ {
            Some(Function::Abs)
        } else if name == "ln"@ {
            Some(Function::Ln)
        } else if name == "exp"@ {
            Some(Function::Exp)
        } else {
            None
        }
    }

    /// Looks a function up by its name.
    pub fn lookup(name: &str) -> (r: Option<Function>)
        ensures
            r == Function::named(name@),
    {
        if same_text(name, "sin") {
            Some(Function::Sin)
        } else if same_text(name, "cos") {
            Some(Function::Cos)
        } else if same_text(name, "tan") {
            Some(Function::Tan)
        } else if same_text(name, "asin") {
            Some(Function::Asin)
        } else if same_text(name, "acos") {
            Some(Function::Acos)
        } else if same_text(name, "atan") {
            Some(Function::Atan)
        } else if same_text(name, "sqrt") {
            Some(Function::Sqrt)
        } else if same_text(name, "abs") {
            Some(Function::Abs)
        } else if same_text(name, "ln") {
            Some(Function::Ln)
        } else if same_text(name, "exp") {
            Some(Function::Exp)
        } else {
            None
        }
    }
}

/// The binary operators.
#[derive(Clone, Copy, Debug, PartialEq, Eq, Structural)]
pub enum Operator {
    Add,
    Sub,
    Mul,
    Div,
    Pow,
}

impl Operator {
    /// The operator that the symbol `op` denotes, if any.
    pub open spec fn for_symbol(op: char) -> Option<Operator> {
        if op == '+' {
            Some(Operator::Add)
        } else if op == '-' {
            Some(Operator::Sub)
        } else if op == '*' {
            Some(Operator::Mul)
        } else if op == '/' {
            Some(Operator::Div)
        } else if op == '^' {
            Some(Operator::Pow)
        } else {
            None
        }
    }

    /// Looks an operator up by its symbol.
    pub fn lookup(op: char) -> (r: Option<Operator>)
        ensures
            r == Operator::for_symbol(op),
    {
        match op {
            '+' => Some(Operator::Add),
            '-' => Some(Operator::Sub),
            '*' => Some(Operator::Mul),
            '/' => Some(Operator::Div),
            '^' => Some(Operator::Pow),
            _ => None,
        }
    }
}

/// An arithmetic term. Its value is that of the number or constant at a leaf, of the
/// function applied to the value of its argument, or of the operator applied to the
/// values of its left and right operand, in this order.
#[derive(Debug, PartialEq, Eq)]
pub enum Expr {
    Number(Number),
    Constant(Constant),
    Apply(Function, Box<Expr>),
    Binary(Operator, Box<Expr>, Box<Expr>),
}

/// Mathematical model of an [`Expr`].
pub enum ExprView {
    Number(NumberView),
    Constant(Constant),
    Apply(Function, Box<ExprView>),
    Binary(Operator, Box<ExprView>, Box<ExprView>),
}

impl Expr {
    /// The model of the term, leaf by leaf.
    pub open spec fn model(self) -> ExprView
        decreases self,
    {
        match self {
            Expr::Number(n) => ExprView::Number(n@),
            Expr::Constant(c) => ExprView::Constant(c),
            Expr::Apply(f, arg) => ExprView::Apply(f, Box::new(arg.model())),
            Expr::Binary(op, left, right) => ExprView::Binary(
                op,
                Box::new(left.model()),
                Box::new(right.model()),
            ),
        }
    }
}

impl View for Expr {
    type V = ExprView;

    open spec fn view(&self) -> ExprView {
        self.model()
    }
}

/// The models of a sequence of terms, in order.
pub open spec fn expr_views(terms: Seq<Expr>) -> Seq<ExprView> {
    terms.map_values(|e: Expr| e@)
}

/// The relations a comparison can test.
#[derive(Clone, Copy, Debug, PartialEq, Eq, Structural)]
pub enum Relation {
    /// `=`
    Equal,
    /// `>`
    Greater,
    /// `<`
    Less,
}

impl Relation {
    /// The relation that the symbol `c` denotes, if any.
    pub open spec fn for_symbol(c: char) -> Option<Relation> {
        if c == '=' {
            Some(Relation::Equal)
        } else if c == '>' {
            Some(Relation::Greater)
        } else if c == '<' {
            Some(Relation::Less)
        } else {
            None
        }
    }

    /// Looks a relation up by its symbol.
    pub fn lookup(c: char) -> (r: Option<Relation>)
        ensures
            r == Relation::for_symbol(c),
    {
        match c {
            '=' => Some(Relation::Equal),
            '>' => Some(Relation::Greater),
            '<' => Some(Relation::Less),
            _ => None,
        }
    }
}

/// What an input evaluates to: a number, given as the term that yields it, or a truth
/// value, given as the comparison that yields it.
#[derive(Debug, PartialEq, Eq)]
pub enum EvalResult {
    /// The value of the term.
    Num(Expr),
    /// Whether the relation holds between the left and the right result.
    Comp(Relation, Box<EvalResult>, Box<EvalResult>),
}

/// Mathematical model of an [`EvalResult`].
pub enum EvalResultView {
    Num(ExprView),
    Comp(Relation, Box<EvalResultView>, Box<EvalResultView>),
}

impl EvalResult {
    /// The model of the result.
    pub open spec fn model(self) -> EvalResultView
        decreases self,
    {
        match self {
            EvalResult::Num(term) => EvalResultView::Num(term@),
            EvalResult::Comp(relation, left, right) => EvalResultView::Comp(
                relation,
                Box::new(left.model()),
                Box::new(right.model()),
            ),
        }
    }
}

impl View for EvalResult {
    type V = EvalResultView;

    open spec fn view(&self) -> EvalResultView {
        self.model()
    }
}

/// The model of the outcome of an evaluation: of the result where there is one, of the
/// failure where there is none.
pub open spec fn outcome(r: Result<EvalResult, EvalError>) -> Result<
    EvalResultView,
    EvalErrorView,
> {
    match r {
        Ok(result) => Ok(result@),
        Err(e) => Err(e@),
    }
}

} // verus!
