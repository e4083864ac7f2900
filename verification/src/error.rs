//! The ways in which assembling can fail.

use vstd::prelude::*;

verus! {

/// A failure of the assembler. Every failure aborts the run at the point where
/// it is detected.
#[derive(Debug, PartialEq, Eq)]
pub enum AsmError {
    /// A token sequence does not have the shape that its context asks for.
    Syntax(String),
    /// A `.` is followed by a name that is no directive.
    UnknownDirective(String),
    /// A token group matches no instruction shape.
    UnsupportedInst,
    /// A label is defined a second time.
    DuplicateLabel(String),
    /// An operand names a label that is defined nowhere.
    UnknownSymbol(String),
    /// A number does not fit the field it is meant for.
    Range(String),
    /// The input ends in the middle of an instruction.
    UnexpectedEof,
    /// An address or a size leaves the range that its width allows.
    Overflow,
}

/// The mathematical value of an [`AsmError`]: texts are sequences of characters.
#[verifier::ext_equal]
pub enum AsmErrorView {
    Syntax(Seq<char>),
    UnknownDirective(Seq<char>),
    UnsupportedInst,
    DuplicateLabel(Seq<char>),
    UnknownSymbol(Seq<char>),
    Range(Seq<char>),
    UnexpectedEof,
    Overflow,
}

impl View for AsmError {
    type V = AsmErrorView;

    open spec fn view(&self) -> AsmErrorView {
        match self {
            AsmError::Syntax(s) => AsmErrorView::Syntax(s@),
            AsmError::UnknownDirective(s) => AsmErrorView::UnknownDirective(s@),
            AsmError::UnsupportedInst => AsmErrorView::UnsupportedInst,
            AsmError::DuplicateLabel(s) => AsmErrorView::DuplicateLabel(s@),
            AsmError::UnknownSymbol(s) => AsmErrorView::UnknownSymbol(s@),
            AsmError::Range(s) => AsmErrorView::Range(s@),
            AsmError::UnexpectedEof => AsmErrorView::UnexpectedEof,
            AsmError::Overflow => AsmErrorView::Overflow,
        }
    }
}

/// The value of an outcome: that of what was computed, or that of the failure.
pub open spec fn result_view<T: View>(r: Result<T, AsmError>) -> Result<T::V, AsmErrorView> {
    match r {
        Ok(value) => Ok(value@),
        Err(e) => Err(e@),
    }
}

} // verus!
