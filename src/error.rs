//! Errors raised while compiling rule text and while evaluating it.
use vstd::prelude::*;

verus! {

/// Error when parsing a condition expression.
#[derive(Debug, Clone, PartialEq)]
pub enum CondError {
    InvalidPattern(String),
    InvalidComparison(String),
    InvalidFileTest(String),
    UnclosedQuotation(String),
    EmptyExpression,
    MissingComparison,
    InvalidSuffix(String),
    MissingSuffix,
    FlagsMissingBrackets(String),
    FlagsEmpty,
    InvalidFlag(String),
}

/// Error when evaluating an engine.
#[derive(Debug, Clone, PartialEq)]
pub enum EngineError {
    TooManyIterations,
}

/// Error when parsing rule text made of several expressions.
#[derive(Debug, Clone, PartialEq)]
pub enum ExpressionError {
    MissingIdentifier,
    InvalidIdentifier(String),
    InvalidStateRule(String),
    ConditionError(CondError),
    RuleError(RuleError),
}

/// Error when parsing a rewrite rule.
#[derive(Debug, Clone, PartialEq)]
pub enum RuleError {
    MissingPattern,
    InvalidRegex(String),
    MissingRewrite,
    InvalidSuffix(String),
    FlagsMissingBrackets(String),
    FlagsEmpty,
    FlagsMutuallyExclusive,
    InvalidFlag(String),
    InvalidFlagNumber(String),
    InvalidFlagStatus(String),
}

impl CondError {
    /// Human readable description of the error.
    pub fn message(&self) -> String {
        let m = match self {
            CondError::InvalidPattern(_) => "Invalid string pattern expression",
            CondError::InvalidComparison(_) => "Invalid comparison expression",
            CondError::InvalidFileTest(_) => "Invalid filetest expression",
            CondError::UnclosedQuotation(_) => "Quotation never closed in expression",
            CondError::EmptyExpression => "Rule condition expression is empty",
            CondError::MissingComparison => "Rule condition is missing comparison",
            CondError::InvalidSuffix(_) => "Invalid expression suffix",
            CondError::MissingSuffix => "Missing suffix for comparison",
            CondError::FlagsMissingBrackets(_) => "Condition flags missing brackets",
            CondError::FlagsEmpty => "Condition flags are empty",
            CondError::InvalidFlag(_) => "Invalid condition flag",
        };
        String::from_str(m)
    }
}

impl EngineError {
    /// Human readable description of the error.
    pub fn message(&self) -> String {
        String::from_str("Too many iterations on rule processing. Infinite loop")
    }
}

impl RuleError {
    /// Human readable description of the error.
    pub fn message(&self) -> String {
        let m = match self {
            RuleError::MissingPattern => "Rule is missing a pattern",
            RuleError::InvalidRegex(_) => "Invalid regex in rule rewrite pattern",
            RuleError::MissingRewrite => "Rule is missing a rewrite expression",
            RuleError::InvalidSuffix(_) => "Invalid suffix to rule expression",
            RuleError::FlagsMissingBrackets(_) => "Rule flag definitions missing brackets",
            RuleError::FlagsEmpty => "Rule flags empty",
            RuleError::FlagsMutuallyExclusive => "Rule flags used are mutually exclusive",
            RuleError::InvalidFlag(_) => "Invalid flag in rule definition",
            RuleError::InvalidFlagNumber(_) => "Invalid number in rule definition",
            RuleError::InvalidFlagStatus(_) => "Invalid status code in rule definition",
        };
        String::from_str(m)
    }
}

impl ExpressionError {
    /// Human readable description of the error.
    pub fn message(&self) -> String {
        match self {
            ExpressionError::MissingIdentifier => String::from_str("Missing expression identifier"),
            ExpressionError::InvalidIdentifier(_) => String::from_str("Invalid rule identifier"),
            ExpressionError::InvalidStateRule(_) => String::from_str("Invalid state rule"),
            ExpressionError::ConditionError(_) => String::from_str(
                "Error when parsing condition rule",
            ),
            ExpressionError::RuleError(_) => String::from_str("Error when parsing rewrite rule"),
        }
    }
}

} // verus!
