//! The six binary operators: precedence, associativity and character form.
//!
//! Precedence, from highest to lowest: power, then multiplication, division
//! and modulo, then addition and subtraction. Every operator associates to
//! the left except power, which associates to the right.

use vstd::prelude::*;

verus! {

/// A binary operator of the expression language.
#[derive(Debug, Clone, Copy, PartialEq, Eq, Structural)]
pub enum Operator {
    Add,
    Subtract,
    Multiply,
    Divide,
    Modulo,
    Power,
}

impl Operator {
    /// Precedence level of the operator; a higher number binds tighter.
    pub open spec fn spec_precedence(self) -> u8 {
        match self {
            Operator::Add | Operator::Subtract => 1,
            Operator::Multiply | Operator::Divide | Operator::Modulo => 2,
            Operator::Power => 3,
        }
    }

    /// Returns the precedence level of the operator.
    pub fn precedence(&self) -> (p: u8)
        ensures
            p == self.spec_precedence(),
    {
        match self {
            Operator::Add | Operator::Subtract => 1,
            Operator::Multiply | Operator::Divide | Operator::Modulo => 2,
            Operator::Power => 3,
        }
    }

    /// Whether the operator associates to the left.
    pub open spec fn spec_is_left_associative(self) -> bool {
        !(self is Power)
    }

    /// Returns the associativity of the operator: every operator is
    /// left-associative except power.
    pub fn is_left_associative(&self) -> (r: bool)
        ensures
            r == self.spec_is_left_associative(),
    {
        match self {
            Operator::Power => false,
            _ => true,
        }
    }

    /// The operator a character denotes, if any.
    pub open spec fn spec_from_char(c: char) -> Option<Operator> {
        if c == '+' {
            Some(Operator::Add)
        } else if c == '-' {
            Some(Operator::Subtract)
        } else if c == '*' {
            Some(Operator::Multiply)
        } else if c == '/' {
            Some(Operator::Divide)
        } else if c == '%' {
            Some(Operator::Modulo)
        } else if c == '^' {
            Some(Operator::Power)
        } else {
            None
        }
    }

    /// Converts a character to an operator if it denotes one.
    pub fn from_char(c: char) -> (r: Option<Operator>)
        ensures
            r == Operator::spec_from_char(c),
    {
        match c {
            '+' => Some(Operator::Add),
            '-' => Some(Operator::Subtract),
            '*' => Some(Operator::Multiply),
            '/' => Some(Operator::Divide),
            '%' => Some(Operator::Modulo),
            '^' => Some(Operator::Power),
            _ => None,
        }
    }
}

} // verus!
