//! A two-pass assembler for RISC-8, a 16-bit instruction set with eight registers.
//!
//! Source text is cut into tokens ([`lexer::tokenize`]), the tokens are laid
//! out into items while labels are bound to addresses
//! ([`parser::first_pass`]), and the items are turned into a data segment and
//! a code segment ([`parser::second_pass`]), each instruction through
//! [`encoder::encode`]. [`assemble`] runs the three stages, and
//! [`image::binary_image`] frames the two segments for a file. Nothing here
//! reads or writes a file.
//!
//! Every function states what it computes as a function of the mathematical
//! values (`@`) of its arguments, over the specification functions of its
//! module: [`lexer::lexing`], [`parser::layout`], [`encoder::encoding`],
//! [`parser::emission`], [`assembly`] and [`image::image`].
//!
//! # What the assembler settles
//!
//! * A character that starts no token is skipped; this is how white space
//!   goes. The text has no comments and no line structure.
//! * A number literal that 32 bits do not hold is a range error.
//! * An instruction statement has as many tokens as its mnemonic fixes; a
//!   token that opens neither a label, a directive nor an instruction is a
//!   statement by itself, which the encoder refuses.
//! * `.org` keeps the low 16 bits of its operand.
//! * Addresses are logical: one program counter runs over instructions and
//!   data in source order, and a label stands for its value. The container
//!   holds the whole data segment before the code segment, so a label is not
//!   in general the offset of what follows it in the container.

use vstd::prelude::*;

pub mod encoder;
pub mod error;
pub mod image;
pub mod lexer;
pub mod parser;
pub mod symtab;
pub mod text;

use crate::error::{result_view, AsmError, AsmErrorView};
use crate::lexer::{lexing, tokenize};
use crate::parser::{emission, first_pass, layout, second_pass};

verus! {

/// The data segment and the code segment that the source text `src` stands for.
pub open spec fn assembly(src: Seq<char>) -> Result<(Seq<u8>, Seq<u8>), AsmErrorView> {
    match lexing(src) {
        Err(e) => Err(e),
        Ok(tokens) => match layout(tokens) {
            Err(e) => Err(e),
            Ok(pass1) => emission(pass1),
        },
    }
}

/// Assembles source text: the data segment and the code segment, or the first
/// failure met. The second pass starts when the first has ended, so that an
/// instruction may name a label that is defined after it.
pub fn assemble(src: &str) -> (r: Result<(Vec<u8>, Vec<u8>), AsmError>)
    ensures
        result_view(r) == assembly(src@),
{
    let tokens = tokenize(src)?;
    let pass1 = first_pass(tokens.as_slice())?;
    second_pass(pass1)
}

} // verus!
