//! The operators that stand between the commands of a list.

use vstd::prelude::*;

verus! {

/// The operator that ends a command or joins it to the next one.
#[derive(Clone, Copy, Debug, PartialEq, Eq, Structural)]
pub enum ControlOperator {
    /// `||`
    Or,
    /// `&&`
    And,
    /// `&`
    BgAnd,
    /// `;`
    Semicolon,
    /// `;;`
    DoubleSemicolon,
    /// `;&`
    SemiAnd,
    /// `;;&`
    SemiSemiAnd,
    /// `|`
    Pipe,
    /// `|&`
    PipeAnd,
    /// A line break.
    NewLine,
    /// No operator: the end of the input.
    NoChar,
}

/// The text of an operator.
pub open spec fn operator_text(op: ControlOperator) -> Seq<char> {
    match op {
        ControlOperator::Or => "||"@,
        ControlOperator::And => "&&"@,
        ControlOperator::BgAnd => "&"@,
        ControlOperator::Semicolon => ";"@,
        ControlOperator::DoubleSemicolon => ";;"@,
        ControlOperator::SemiAnd => ";&"@,
        ControlOperator::SemiSemiAnd => ";;&"@,
        ControlOperator::Pipe => "|"@,
        ControlOperator::PipeAnd => "|&"@,
        ControlOperator::NewLine => "\n"@,
        ControlOperator::NoChar => ""@,
    }
}

impl ControlOperator {
    /// The text of the operator.
    pub fn text(&self) -> (t: &'static str)
        ensures
            t@ == operator_text(*self),
    {
        match self {
            ControlOperator::Or => "||",
            ControlOperator::And => "&&",
            ControlOperator::BgAnd => "&",
            ControlOperator::Semicolon => ";",
            ControlOperator::DoubleSemicolon => ";;",
            ControlOperator::SemiAnd => ";&",
            ControlOperator::SemiSemiAnd => ";;&",
            ControlOperator::Pipe => "|",
            ControlOperator::PipeAnd => "|&",
            ControlOperator::NewLine => "\n",
            ControlOperator::NoChar => "",
        }
    }

    /// Whether the operator sends the pipeline before it to the background.
    pub fn is_background(&self) -> (b: bool)
        ensures
            b == (*self == ControlOperator::BgAnd),
    {
        match self {
            ControlOperator::BgAnd => true,
            _ => false,
        }
    }
}

} // verus!
