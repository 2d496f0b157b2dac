//! The accumulator of one synthesis: the text written so far, the span of
//! each token in it, and the failures collected against it.

use vstd::prelude::*;
use vstd::string::{StrSliceExecFns, StringExecFns};
use crate::diagnostic::{
    chain_message, detail_message, failures_of, label_message, labels_of, reconcile,
    DeferredFailure, Failure, Rejection,
};
use crate::model::{
    lemma_push_leaves_concat, lemma_push_leaves_one, lemma_push_text_extends,
    lemma_rejection_is_reported, parse_reports, validation_reports, SourceModel,
};
use crate::result::{ShaderModel, ShaderResult};
use crate::spacing::should_add_space_between;
use crate::span::{resolved, ByteRange, SpanIndex};
use crate::text::{byte_length, lemma_byte_len_concat, lemma_byte_len_positive};
use crate::token::{bracket, leaves_of, Leaf, Token};

verus! {

/// Shader source text generated from the tokens handed in, with the span
/// of each token in it and the failures reported against it.
pub struct Sourcecode<L> {
    src: String,
    last: Option<char>,
    spans: SpanIndex<L>,
    errors: Vec<DeferredFailure<L>>,
}

impl<L> View for Sourcecode<L> {
    type V = SourceModel<L>;

    closed spec fn view(&self) -> SourceModel<L> {
        SourceModel { text: self.src@, spans: self.spans@, failures: failures_of(self.errors@) }
    }
}

impl<L> Sourcecode<L> {
    /// The records are ordered and lie within the text, and the last
    /// character written is at hand.
    #[verifier::type_invariant]
    spec fn inv(self) -> bool {
        &&& self@.wf()
        &&& self.last == if self.src@.len() == 0 {
            None
        } else {
            Some(self.src@.last())
        }
    }
}

impl<L: Copy> Sourcecode<L> {
    /// An accumulator with no text, no records and no failures.
    pub fn new() -> (source: Self)
        ensures
            source@ == SourceModel::<L>::empty(),
    {
        let source = Sourcecode {
            src: String::new(),
            last: None,
            spans: SpanIndex::new(),
            errors: Vec::new(),
        };
        assert(failures_of(source.errors@) == Seq::<Failure<L>>::empty());
        source
    }

    /// The text written so far. Every span record lies within it.
    pub fn text(&self) -> (text: &str)
        ensures
            text@ == self@.text,
            self@.wf(),
    {
        proof {
            use_type_invariant(self);
        }
        self.src.as_str()
    }

    /// The span records of the tokens written so far, in order and within
    /// the text.
    pub fn spans(&self) -> (index: &SpanIndex<L>)
        ensures
            index@ == self@.spans,
            self@.wf(),
    {
        proof {
            use_type_invariant(self);
        }
        &self.spans
    }

    /// The failures collected so far, in the order reported.
    pub fn errors(&self) -> (failures: &Vec<DeferredFailure<L>>)
        ensures
            failures_of(failures@) == self@.failures,
    {
        &self.errors
    }

    /// Adds a token to the text and records where its text landed, together
    /// with the place `span` that it came from. A token without text is
    /// skipped. A space goes before the token where the spacing policy asks
    /// for one; the space belongs to no record.
    pub fn push_token(&mut self, token: &str, span: L)
        ensures
            final(self)@ == old(self)@.push_text(token@, span),
    {
        proof {
            use_type_invariant(&*self);
        }
        let count = token.unicode_len();
        if count == 0 {
            return ;
        }
        let ghost before = self@;
        let next = token.get_char(0);
        let spaced = match self.last {
            Some(last) => should_add_space_between(last, next),
            None => false,
        };
        let mut taken = Sourcecode::new();
        std::mem::swap(self, &mut taken);
        let Sourcecode { mut src, last: _, mut spans, errors } = taken;
        if spaced {
            proof {
                reveal_strlit(" ");
            }
            src.append(" ");
        }
        assert(src@ == before.text + before.separator(next));
        let start = byte_length(src.as_str());
        src.append(token);
        let end = byte_length(src.as_str());
        proof {
            lemma_push_text_extends(before, token@, span);
            lemma_byte_len_concat(before.text, before.separator(next));
            lemma_byte_len_concat(before.text + before.separator(next), token@);
            lemma_byte_len_positive(token@);
        }
        let accepted = spans.push(start, end, span);
        assert(accepted);
        *self = Sourcecode { src, last: Some(token.get_char(count - 1)), spans, errors };
    }

    /// Writes the tokens in order, depth first. A group is written as its
    /// opening bracket, at the place of that bracket, then its children, then
    /// its closing bracket; a group without brackets as its children alone.
    pub fn append_tokens(&mut self, tokens: &Vec<Token<L>>)
        ensures
            final(self)@ == old(self)@.push_leaves(leaves_of(tokens@)),
        decreases tokens,
    {
        let ghost before = self@;
        let mut i: usize = 0;
        while i < tokens.len()
            invariant
                i <= tokens.len(),
                self@ == before.push_leaves(leaves_of(tokens@.take(i as int))),
            decreases tokens.len() - i,
        {
            let ghost done = leaves_of(tokens@.take(i as int));
            let ghost mid = self@;
            proof {
                let upto = tokens@.take(i + 1);
                assert(upto.drop_last() == tokens@.take(i as int));
                lemma_push_leaves_concat(before, done, tokens@[i as int].leaves());
            }
            match &tokens[i] {
                Token::Leaf { text, location } => {
                    proof {
                        lemma_push_leaves_one(mid, Leaf { text: text@, location: *location });
                    }
                    self.push_token(text.as_str(), *location);
                },
                Token::Group { delimiter, open, close, children } => {
                    let ghost opening = bracket(delimiter.opening(), *open);
                    let ghost closing = bracket(delimiter.closing(), *close);
                    proof {
                        lemma_push_leaves_concat(mid, opening + leaves_of(children@), closing);
                        lemma_push_leaves_concat(mid, opening, leaves_of(children@));
                    }
                    match delimiter.open_text() {
                        Some(t) => {
                            proof {
                                assert(t@ == seq![t@[0]]);
                                lemma_push_leaves_one(mid, opening[0]);
                            }
                            self.push_token(t, *open);
                        },
                        None => {},
                    }
                    self.append_tokens(children);
                    let ghost inner = self@;
                    match delimiter.close_text() {
                        Some(t) => {
                            proof {
                                assert(t@ == seq![t@[0]]);
                                lemma_push_leaves_one(inner, closing[0]);
                            }
                            self.push_token(t, *close);
                        },
                        None => {},
                    }
                },
            }
            i += 1;
        }
        assert(tokens@.take(i as int) == tokens@);
    }

    /// Finds the places of all tokens associated with a range of bytes of the
    /// text.
    pub fn get_spans_within(&self, start: usize, end: usize) -> (locations: Vec<L>)
        ensures
            locations@ == resolved(self@.spans, start as int, end as int),
    {
        self.spans.resolve(start, end)
    }

    /// Takes in one report about the text: the range `loc` of bytes that the
    /// report is about, if it names one, and its message. The report is added
    /// as one failure for each token that the range resolves to, or as a
    /// single failure without a location where there is no range or no token.
    pub fn push_naga_error(&mut self, loc: Option<ByteRange>, msg: &str)
        ensures
            final(self)@ == old(self)@.report(msg@, loc),
    {
        proof {
            use_type_invariant(&*self);
        }
        let mut found = reconcile(&self.spans, msg, loc);
        let ghost new = found@;
        let mut taken = Sourcecode::new();
        std::mem::swap(self, &mut taken);
        let Sourcecode { src, last, spans, mut errors } = taken;
        let ghost had = errors@;
        errors.append(&mut found);
        assert(failures_of(errors@) == failures_of(had) + failures_of(new));
        *self = Sourcecode { src, last, spans, errors };
    }

    /// Takes in the rejection of the text by the grammar. The message is
    /// the rejection's description followed by its causes. Without labels it
    /// is reported once, with no range; else once for each label, as
    /// `at label: message`, at the label's range.
    pub fn report_parse_failure(&mut self, why: &Rejection)
        ensures
            final(self)@ == old(self)@.reject_parse(why@),
    {
        let ghost before = self@;
        let message = chain_message(why.message.as_str(), &why.causes);
        let ghost reports = parse_reports(message@, labels_of(why.labels@));
        if why.labels.len() == 0 {
            assert(before.report_all(reports.drop_last()) == before);
            self.push_naga_error(None, message.as_str());
            return ;
        }
        let mut i: usize = 0;
        while i < why.labels.len()
            invariant
                i <= why.labels.len(),
                why.labels.len() > 0,
                reports == parse_reports(message@, labels_of(why.labels@)),
                self@ == before.report_all(reports.take(i as int)),
            decreases why.labels.len() - i,
        {
            let label = &why.labels[i];
            let text = label_message(label.text.as_str(), message.as_str());
            proof {
                let upto = reports.take(i + 1);
                assert(upto.drop_last() == reports.take(i as int));
            }
            self.push_naga_error(label.range, text.as_str());
            i += 1;
        }
        assert(reports.take(i as int) == reports);
    }

    /// Takes in the rejection of the module by the validator. The message
    /// is the rejection's description followed by its causes. Without places
    /// it is reported once, with no range; else once for each place, as
    /// `message: detail`, at the place's range.
    pub fn report_validation_failure(&mut self, why: &Rejection)
        ensures
            final(self)@ == old(self)@.reject_validation(why@),
    {
        let ghost before = self@;
        let message = chain_message(why.message.as_str(), &why.causes);
        let ghost reports = validation_reports(message@, labels_of(why.labels@));
        if why.labels.len() == 0 {
            assert(before.report_all(reports.drop_last()) == before);
            self.push_naga_error(None, message.as_str());
            return ;
        }
        let mut i: usize = 0;
        while i < why.labels.len()
            invariant
                i <= why.labels.len(),
                why.labels.len() > 0,
                reports == validation_reports(message@, labels_of(why.labels@)),
                self@ == before.report_all(reports.take(i as int)),
            decreases why.labels.len() - i,
        {
            let place = &why.labels[i];
            let text = detail_message(message.as_str(), place.text.as_str());
            proof {
                let upto = reports.take(i + 1);
                assert(upto.drop_last() == reports.take(i as int));
            }
            self.push_naga_error(place.range, text.as_str());
            i += 1;
        }
        assert(reports.take(i as int) == reports);
    }

    /// Takes in the grammar's answer to the text. A module comes back as it
    /// is and changes nothing. A rejection is taken in as failures, as
    /// `report_parse_failure` says, and nothing comes back.
    pub fn parse(
        &mut self,
        answer: Result<naga::Module, Rejection>,
    ) -> (module: Option<naga::Module>)
        ensures
            answer matches Ok(made) ==> module == Some(made) && final(self)@ == old(self)@,
            answer matches Err(why) ==> module is None
                && final(self)@ == old(self)@.reject_parse(why@),
    {
        match answer {
            Ok(made) => Some(made),
            Err(why) => {
                self.report_parse_failure(&why);
                None
            },
        }
    }

    /// Ends the synthesis with the grammar's answer to the text: puts the
    /// accumulator together with the module that the grammar made, or, where
    /// the grammar turned the text down, takes the rejection in as failures
    /// and puts the accumulator together with an empty module.
    pub fn complete(self, answer: Result<naga::Module, Rejection>) -> (result: ShaderResult<L>)
        ensures
            answer matches Ok(made) ==> result@ == (ShaderModel { source: self@, module: made }),
            answer matches Err(why) ==> result@.source == self@.reject_parse(why@),
            result@.source.text == self@.text,
            result@.source.spans == self@.spans,
            answer is Err ==> result@.source.failures.len() > self@.failures.len(),
    {
        proof {
            if answer is Err {
                lemma_rejection_is_reported(self@, answer->Err_0@);
            }
        }
        let mut source = self;
        let module = match source.parse(answer) {
            Some(made) => made,
            None => naga::Module::default(),
        };
        ShaderResult::new(source, module)
    }
}

} // verus!
