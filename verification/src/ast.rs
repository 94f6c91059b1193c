//! The abstract syntax tree: a program is an ordered list of assignment
//! statements, and an expression is a tree of binary operations, unary
//! operations and leaf values.  Float literals are held as their IEEE-754
//! binary32 bit patterns.

use vstd::prelude::*;

use crate::parser::spec_unexpected_token;
use crate::parser::ParserError;
use crate::parser::ParserErrorView;
use crate::tokens::Token;

verus! {

#[derive(Clone, Copy, Debug, PartialEq, Eq, Structural)]
pub enum BinaryOperator {
    Addition,
    Subtraction,
    Multiplication,
    Division,
    Modulo,
}

/// The binary operator a token text spells, if any.
pub open spec fn spec_binary_operator_of(text: Seq<char>) -> Option<BinaryOperator> {
    if text =~= "+"@ {
        Some(BinaryOperator::Addition)
    } else if text =~= "-"@ {
        Some(BinaryOperator::Subtraction)
    } else if text =~= "*"@ {
        Some(BinaryOperator::Multiplication)
    } else if text =~= "/"@ {
        Some(BinaryOperator::Division)
    } else if text =~= "%"@ {
        Some(BinaryOperator::Modulo)
    } else {
        None
    }
}

pub open spec fn spec_precedence(op: BinaryOperator) -> u8 {
    match op {
        BinaryOperator::Addition => 13,
        BinaryOperator::Subtraction => 13,
        BinaryOperator::Multiplication => 14,
        BinaryOperator::Division => 14,
        BinaryOperator::Modulo => 14,
    }
}

impl BinaryOperator {
    /// Reads a binary operator off an operator token; any other text is a
    /// syntax error naming the expected set.
    pub fn from_str(op_token: &Token) -> (r: Result<BinaryOperator, ParserError>)
        ensures
            match spec_binary_operator_of(op_token@.text) {
                Some(op) => r == Ok::<BinaryOperator, ParserError>(op),
                None => r is Err && r->Err_0@ == spec_unexpected_token(
                    "+, -, *, / or %"@,
                    op_token@,
                ),
            },
    {
        let ghost text = op_token@.text;
        if op_token.text.unicode_len() == 1 {
            let c = op_token.text.as_str().get_char(0);
            proof {
                reveal_strlit("+");
                reveal_strlit("-");
                reveal_strlit("*");
                reveal_strlit("/");
                reveal_strlit("%");
                assert(c == '+' ==> text =~= "+"@);
                assert(c == '-' ==> text =~= "-"@);
                assert(c == '*' ==> text =~= "*"@);
                assert(c == '/' ==> text =~= "/"@);
                assert(c == '%' ==> text =~= "%"@);
                assert(c != '+' ==> !(text =~= "+"@));
                assert(c != '-' ==> !(text =~= "-"@));
                assert(c != '*' ==> !(text =~= "*"@));
                assert(c != '/' ==> !(text =~= "/"@));
                assert(c != '%' ==> !(text =~= "%"@));
            }
            match c {
                '+' => Ok(BinaryOperator::Addition),
                '-' => Ok(BinaryOperator::Subtraction),
                '*' => Ok(BinaryOperator::Multiplication),
                '/' => Ok(BinaryOperator::Division),
                '%' => Ok(BinaryOperator::Modulo),
                _ => Err(ParserError::unexpected_token("+, -, *, / or %", op_token)),
            }
        } else {
            proof {
                reveal_strlit("+");
                reveal_strlit("-");
                reveal_strlit("*");
                reveal_strlit("/");
                reveal_strlit("%");
            }
            Err(ParserError::unexpected_token("+, -, *, / or %", op_token))
        }
    }

    /// The conventional binding strength of the operator.  The grammar's
    /// expression rule is right-recursive and does not consult it (a
    /// documented design decision); it is kept for precedence-aware callers.
    pub fn get_precedence(&self) -> (r: u8)
        ensures
            r == spec_precedence(*self),
    {
        match self {
            BinaryOperator::Addition => 13,
            BinaryOperator::Subtraction => 13,
            BinaryOperator::Multiplication => 14,
            BinaryOperator::Division => 14,
            BinaryOperator::Modulo => 14,
        }
    }
}

#[derive(Clone, Copy, Debug, PartialEq, Eq, Structural)]
pub enum UnaryOperator {
    Negation,
}

/// The unary operator a token text spells, if any.
pub open spec fn spec_unary_operator_of(text: Seq<char>) -> Option<UnaryOperator> {
    if text =~= "-"@ {
        Some(UnaryOperator::Negation)
    } else {
        None
    }
}

impl UnaryOperator {
    /// Reads a unary operator off an operator token; any other text is a
    /// syntax error naming the one expected spelling.
    pub fn from_str(op_token: &Token) -> (r: Result<UnaryOperator, ParserError>)
        ensures
            match spec_unary_operator_of(op_token@.text) {
                Some(op) => r == Ok::<UnaryOperator, ParserError>(op),
                None => r is Err && r->Err_0@ == spec_unexpected_token("-"@, op_token@),
            },
    {
        let ghost text = op_token@.text;
        if op_token.text.unicode_len() == 1 {
            let c = op_token.text.as_str().get_char(0);
            proof {
                reveal_strlit("-");
                assert(c == '-' ==> text =~= "-"@);
                assert(c != '-' ==> !(text =~= "-"@));
            }
            if c == '-' {
                Ok(UnaryOperator::Negation)
            } else {
                Err(ParserError::unexpected_token("-", op_token))
            }
        } else {
            proof {
                reveal_strlit("-");
            }
            Err(ParserError::unexpected_token("-", op_token))
        }
    }
}

/// The mathematical image of a leaf value.
pub enum ValueView {
    Float(u32),
    Integer(i32),
    Variable(Seq<char>),
}

/// A leaf value of an expression: a float literal (as its binary32 bit
/// pattern), an integer literal, or a reference to a variable.
#[derive(Clone, Debug)]
pub enum Value {
    Float(u32),
    Integer(i32),
    Variable(String),
}

impl DeepView for Value {
    type V = ValueView;

    open spec fn deep_view(&self) -> ValueView {
        match self {
            Value::Float(b) => ValueView::Float(*b),
            Value::Integer(v) => ValueView::Integer(*v),
            Value::Variable(name) => ValueView::Variable(name@),
        }
    }
}

/// The mathematical image of an expression.
pub enum ExpressionView {
    BinaryOp { op: BinaryOperator, left: Box<ExpressionView>, right: Box<ExpressionView> },
    UnaryOp { op: UnaryOperator, expr: Box<ExpressionView> },
    EVal(ValueView),
}

/// An expression: a binary operation, a unary operation, or a leaf value.
#[derive(Debug)]
pub enum Expression {
    BinaryOp { op: BinaryOperator, left: Box<Expression>, right: Box<Expression> },
    UnaryOp { op: UnaryOperator, expr: Box<Expression> },
    EVal(Value),
}

pub open spec fn spec_expression_view(e: Expression) -> ExpressionView
    decreases e,
{
    match e {
        Expression::BinaryOp { op, left, right } => ExpressionView::BinaryOp {
            op,
            left: Box::new(spec_expression_view(*left)),
            right: Box::new(spec_expression_view(*right)),
        },
        Expression::UnaryOp { op, expr } => ExpressionView::UnaryOp {
            op,
            expr: Box::new(spec_expression_view(*expr)),
        },
        Expression::EVal(v) => ExpressionView::EVal(v.deep_view()),
    }
}

impl DeepView for Expression {
    type V = ExpressionView;

    open spec fn deep_view(&self) -> ExpressionView {
        spec_expression_view(*self)
    }
}

/// The mathematical image of a statement.
pub struct StatementView {
    pub id: Seq<char>,
    pub expr: ExpressionView,
}

/// A statement: the source language has exactly one kind, the assignment of
/// an expression's value to a name.
#[derive(Debug)]
pub enum Statement {
    Assignment { id: String, expr: Expression },
}

impl DeepView for Statement {
    type V = StatementView;

    open spec fn deep_view(&self) -> StatementView {
        match self {
            Statement::Assignment { id, expr } => StatementView {
                id: id@,
                expr: expr.deep_view(),
            },
        }
    }
}

/// A parsed program: its statements in source order.
#[derive(Debug)]
pub struct Program {
    pub statements: Vec<Statement>,
}

impl DeepView for Program {
    type V = Seq<StatementView>;

    open spec fn deep_view(&self) -> Seq<StatementView> {
        self.statements.deep_view()
    }
}

} // verus!
