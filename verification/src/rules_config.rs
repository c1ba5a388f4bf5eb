//! The model of the rules configuration: each rule holds conditions on
//! input values and actions on outputs. Reading it from XML is the
//! application's job; the words of the XML attributes are read here.

use vstd::prelude::*;

use crate::io_value::{IOAction, IOActionView, IOValue, parse_value};

verus! {

/// How a condition compares the current value of an input with its operand.
#[derive(Debug, Clone, Copy, PartialEq, Eq, Structural)]
pub enum Operator {
    Equal,
    NotEqual,
    Greater,
    GreaterOrEqual,
    Lower,
    LowerOrEqual,
}

/// The input side of a condition: `<input id=.. oper=.. val=..>`.
#[derive(Debug, PartialEq)]
pub struct Input {
    pub id: String,
    pub operator: Operator,
    pub value: IOValue,
}

/// A condition of a rule.
#[derive(Debug, PartialEq)]
pub enum ConditionKind {
    /// Holds at start up.
    Start,
    /// Holds when the input's value compares as asked with the operand.
    Standard { input: Input },
}

/// The output side of an action: `<output id=.. val=..>`.
#[derive(Debug, PartialEq)]
pub struct Output {
    pub id: String,
    pub val: IOAction,
}

/// An action of a rule.
#[derive(Debug, PartialEq)]
pub struct Action {
    pub typer: String,
    pub output: Output,
}

/// A rule: when all its conditions hold, its actions are sent to the outputs.
#[derive(Debug, PartialEq)]
pub struct Rule {
    pub name: String,
    pub typer: String,
    pub conditions: Vec<ConditionKind>,
    pub actions: Vec<Action>,
}

#[derive(Debug, PartialEq)]
pub struct RulesConfig {
    pub rules: Vec<Rule>,
}

/// The operator that an `oper` attribute names.
pub open spec fn operator_of_text(s: Seq<char>) -> Option<Operator> {
    if s == "=="@ {
        Some(Operator::Equal)
    } else if s == "!="@ {
        Some(Operator::NotEqual)
    } else if s == ">"@ {
        Some(Operator::Greater)
    } else if s == ">="@ {
        Some(Operator::GreaterOrEqual)
    } else if s == "<"@ {
        Some(Operator::Lower)
    } else if s == "<="@ {
        Some(Operator::LowerOrEqual)
    } else {
        None
    }
}

/// The action that a `val` attribute of an output names: "toggle" and
/// "stop" are commands, any other text sets the value it denotes.
pub open spec fn action_of_text(s: Seq<char>) -> IOActionView {
    if s == "toggle"@ {
        IOActionView::Toggle
    } else if s == "stop"@ {
        IOActionView::Stop
    } else {
        IOActionView::SetValue(parse_value(s))
    }
}

fn text_is(s: &str, lit: &str) -> (r: bool)
    ensures
        r == (s@ == lit@),
{
    crate::text::str_eq(s, lit)
}

/// Reads the `oper` attribute of a condition.
pub fn operator_from_text(s: &str) -> (r: Option<Operator>)
    ensures
        r == operator_of_text(s@),
{
    if text_is(s, "==") {
        Some(Operator::Equal)
    } else if text_is(s, "!=") {
        Some(Operator::NotEqual)
    } else if text_is(s, ">") {
        Some(Operator::Greater)
    } else if text_is(s, ">=") {
        Some(Operator::GreaterOrEqual)
    } else if text_is(s, "<") {
        Some(Operator::Lower)
    } else if text_is(s, "<=") {
        Some(Operator::LowerOrEqual)
    } else {
        None
    }
}

/// Reads the `val` attribute of an action's output.
pub fn action_from_text(s: &str) -> (r: IOAction)
    ensures
        r@ == action_of_text(s@),
{
    if text_is(s, "toggle") {
        IOAction::Toggle
    } else if text_is(s, "stop") {
        IOAction::Stop
    } else {
        IOAction::SetValue(IOValue::parse(s))
    }
}

} // verus!
