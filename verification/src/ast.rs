//! The syntax tree of a rule of the rule language.
use vstd::prelude::*;

verus! {

/// A comparison of a condition.
#[derive(Debug, PartialEq, Eq, Structural, Clone, Copy)]
pub enum Operator {
    /// `<`
    LessThan,
    /// `>`
    GreaterThan,
    /// `==`
    Equal,
    /// `!=`
    NotEqual,
    /// `<=`
    LessOrEq,
    /// `>=`
    GreaterOrEq,
}

/// What a rule does when its condition holds.
#[derive(Debug, PartialEq)]
pub enum ActionType {
    TriggerFlash,
    DropPacket,
    LogAnomaly(String),
}

/// `variable operator threshold`, such as `precision < 0.85`.
///
/// The threshold is carried as the IEEE-754 bit pattern of its `f64` value
/// (`f64::to_bits`).
#[derive(Debug, PartialEq)]
pub struct Condition {
    pub variable: String,
    pub operator: Operator,
    pub threshold_bits: u64,
}

/// A named rule: a condition and the action it triggers.
#[derive(Debug, PartialEq)]
pub struct CelerRule {
    pub name: String,
    pub condition: Condition,
    pub action: ActionType,
}

} // verus!
