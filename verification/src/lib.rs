//! Shader source written as a tree of tokens, turned into one text for a
//! shader grammar, with every failure that the grammar or the validator
//! reports against that text anchored back at the tokens it came from.
//!
//! A synthesis runs in three steps. [`wgsl`] writes the tokens into an
//! accumulator. `Sourcecode::complete` takes in what the grammar answers to
//! the text. `ShaderResult::validate` takes in what the validator answers to
//! the module. The caller asks the grammar and the validator in between.
//!
//! - [`token`]: the token tree and the order in which its leaves are written.
//! - [`spacing`]: where two adjacent tokens need a space between them.
//! - [`span`]: the table of span records and the lookup from a byte range to
//!   the tokens behind it.
//! - [`diagnostic`]: failures, their messages, and how a report becomes
//!   failures at tokens.
//! - [`model`]: what an accumulator stands for in contracts, and the laws
//!   that hold of it.
//! - [`source`]: the accumulator itself.
//! - [`result`]: the accumulator together with the parsed module.
//! - [`grammar`]: the types shared with the `naga` crate, and the place of a
//!   label.
//! - [`text`]: byte lengths of text.

pub mod diagnostic;
pub mod grammar;
pub mod model;
pub mod result;
pub mod source;
pub mod spacing;
pub mod span;
pub mod text;
pub mod token;

use vstd::prelude::*;
use crate::model::SourceModel;
use crate::source::Sourcecode;
use crate::token::{leaves_of, Token};

verus! {

/// The first step of a synthesis: writes the tokens of `shader` into a
/// fresh accumulator. Its text is what goes to the grammar; the answers of
/// the grammar and of the validator are then taken in by
/// `Sourcecode::complete` and `ShaderResult::validate`.
pub fn wgsl<L: Copy>(shader: &Vec<Token<L>>) -> (sourcecode: Sourcecode<L>)
    ensures
        sourcecode@ == SourceModel::<L>::empty().push_leaves(leaves_of(shader@)),
{
    let mut sourcecode = Sourcecode::new();
    sourcecode.append_tokens(shader);
    sourcecode
}

} // verus!
