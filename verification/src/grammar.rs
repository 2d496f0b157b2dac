//! What this crate shares with the shader grammar and validator of the
//! `naga` crate: the types that pass through, and the place of a label.
//!
//! The grammar and the validator themselves are not called from here. They
//! can give up on a text or a module without an answer, and nothing said of
//! the input beforehand rules that out; so whoever calls them hands their
//! answers in, as a `Rejection` or as what they made.

use vstd::prelude::*;
use crate::diagnostic::Label;
use crate::span::ByteRange;

verus! {

/// A parsed shader module. Nothing in this crate looks inside one.
#[verifier::external_type_specification]
#[verifier::external_body]
pub struct ExModule(naga::Module);

/// What the validator has found out about a valid module. Nothing in this
/// crate looks inside it.
#[verifier::external_type_specification]
#[verifier::external_body]
pub struct ExModuleInfo(naga::valid::ModuleInfo);

/// A stretch of text as `naga` reports it. Nothing in this crate looks
/// inside one.
#[verifier::external_type_specification]
#[verifier::external_body]
pub struct ExSpan(naga::Span);

/// The start and the end of the byte range that `naga::Span::to_range`
/// gives for `span`, or `None` for a span that stands for no place.
pub uninterp spec fn span_range(span: naga::Span) -> Option<(usize, usize)>;

/// `naga::Span::to_range`: the byte range of a span, or nothing for a span
/// that stands for no place. Taken on trust: the answer depends on the span
/// alone.
pub assume_specification[ naga::Span::to_range ](span: naga::Span) -> (range: Option<
    std::ops::Range<usize>,
>)
    ensures
        range matches Some(r) ==> span_range(span) == Some((r.start, r.end)),
        range is None ==> span_range(span) is None,
;

/// `naga::Module::default`: a module with nothing in it. Nothing is claimed
/// of it.
pub assume_specification[ <naga::Module as core::default::Default>::default ]() -> (module:
    naga::Module)
;

/// The range of a label at `span`: the byte range of the span, if it has
/// one.
pub open spec fn label_range(span: naga::Span) -> Option<ByteRange> {
    match span_range(span) {
        Some((start, end)) => Some(ByteRange { start, end }),
        None => None,
    }
}

/// The label that says `text` about the stretch `span`: it has the byte
/// range of the span, or none where the span stands for no place.
pub fn label_at(span: naga::Span, text: &str) -> (label: Label)
    ensures
        label@.text == text@,
        label@.range == label_range(span),
{
    let range = match span.to_range() {
        Some(r) => Some(ByteRange { start: r.start, end: r.end }),
        None => None,
    };
    Label { range, text: text.to_owned() }
}

} // verus!
