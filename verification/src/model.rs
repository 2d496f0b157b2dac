//! What an accumulator stands for in contracts: the text written, the span
//! records and the failures, as mathematical values, with the functions that
//! say what each operation makes of them and the laws that hold of those.

use vstd::prelude::*;
use vstd::utf8::encode_utf8;
use crate::diagnostic::{chained, detailed, labelled, reconciled, Failure, LabelView, RejectionView};
use crate::spacing::needs_space;
use crate::span::{ordered, ByteRange, SpanView};
use crate::text::{byte_len, lemma_byte_len_positive, lemma_encode_concat, lemma_space_is_one_byte};
use crate::token::Leaf;

verus! {


/// What a `Sourcecode` stands for in contracts.
pub struct SourceModel<L> {
    /// The text written so far.
    pub text: Seq<char>,
    /// One record for each token that had text, in the order written.
    pub spans: Seq<SpanView<L>>,
    /// The failures collected so far.
    pub failures: Seq<Failure<L>>,
}

/// One report from an outside grammar or validator: a message, and the
/// range of the synthesized text that it is about, if it names one.
pub struct Report {
    pub message: Seq<char>,
    pub range: Option<ByteRange>,
}

/// The reports that a rejected parse becomes: the message alone where it
/// has no labels, else one report for each label, at the label's range.
pub open spec fn parse_reports(message: Seq<char>, labels: Seq<LabelView>) -> Seq<Report> {
    if labels.len() == 0 {
        seq![Report { message, range: None }]
    } else {
        Seq::new(
            labels.len(),
            |i: int| Report { message: labelled(labels[i].text, message), range: labels[i].range },
        )
    }
}

/// The reports that a rejected validation becomes: the message alone where
/// it names no place, else one report for each place, with its detail.
pub open spec fn validation_reports(message: Seq<char>, places: Seq<LabelView>) -> Seq<Report> {
    if places.len() == 0 {
        seq![Report { message, range: None }]
    } else {
        Seq::new(
            places.len(),
            |i: int| Report { message: detailed(message, places[i].text), range: places[i].range },
        )
    }
}

/// The leaves that have text, in order.
pub open spec fn with_text<L>(leaves: Seq<Leaf<L>>) -> Seq<Leaf<L>>
    decreases leaves.len(),
{
    if leaves.len() == 0 {
        Seq::empty()
    } else if leaves.last().text.len() > 0 {
        with_text(leaves.drop_last()).push(leaves.last())
    } else {
        with_text(leaves.drop_last())
    }
}

impl<L> SourceModel<L> {
    /// Nothing written, nothing collected.
    pub open spec fn empty() -> Self {
        SourceModel { text: Seq::empty(), spans: Seq::empty(), failures: Seq::empty() }
    }

    /// The records are ordered and lie within the text.
    pub open spec fn wf(self) -> bool {
        &&& ordered(self.spans)
        &&& forall|i: int|
            0 <= i < self.spans.len() ==> (#[trigger] self.spans[i]).end <= byte_len(self.text)
    }

    /// What is written between the text so far and a token that starts with
    /// `next`: a space where the spacing policy asks for one, else nothing.
    pub open spec fn separator(self, next: char) -> Seq<char> {
        if self.text.len() > 0 && needs_space(self.text.last(), next) {
            seq![' ']
        } else {
            Seq::empty()
        }
    }

    /// The state after one token's text is written. Empty text changes
    /// nothing. Otherwise the separator is written, then the text, and a
    /// record is added that covers the text and not the separator.
    pub open spec fn push_text(self, text: Seq<char>, location: L) -> Self {
        if text.len() == 0 {
            self
        } else {
            let start = byte_len(self.text + self.separator(text[0])) as int;
            SourceModel {
                text: self.text + self.separator(text[0]) + text,
                spans: self.spans.push(SpanView { start, end: start + byte_len(text), location }),
                failures: self.failures,
            }
        }
    }

    /// The state after the leaves are written one after the other.
    pub open spec fn push_leaves(self, leaves: Seq<Leaf<L>>) -> Self
        decreases leaves.len(),
    {
        if leaves.len() == 0 {
            self
        } else {
            self.push_leaves(leaves.drop_last()).push_text(
                leaves.last().text,
                leaves.last().location,
            )
        }
    }

    /// The bytes of the text that the record covers.
    pub open spec fn bytes_of(self, record: SpanView<L>) -> Seq<u8> {
        encode_utf8(self.text).subrange(record.start, record.end)
    }

    /// The state after one report is reconciled with the span records and
    /// its failures are added.
    pub open spec fn report(self, message: Seq<char>, range: Option<ByteRange>) -> Self {
        SourceModel {
            text: self.text,
            spans: self.spans,
            failures: self.failures + reconciled(self.spans, message, range),
        }
    }

    /// The state after the reports are taken in one after the other.
    pub open spec fn report_all(self, reports: Seq<Report>) -> Self
        decreases reports.len(),
    {
        if reports.len() == 0 {
            self
        } else {
            let last = reports.last();
            self.report_all(reports.drop_last()).report(last.message, last.range)
        }
    }

    /// The state after the grammar has turned the text down for `why`.
    pub open spec fn reject_parse(self, why: RejectionView) -> Self {
        self.report_all(parse_reports(chained(why.message, why.causes), why.labels))
    }

    /// The state after the validator has turned the module down for `why`.
    pub open spec fn reject_validation(self, why: RejectionView) -> Self {
        self.report_all(validation_reports(chained(why.message, why.causes), why.labels))
    }
}

/// Taking in reports changes neither the text nor the records, and adds at
/// least one failure for each report.
pub proof fn lemma_report_all_keeps_text<L>(m: SourceModel<L>, reports: Seq<Report>)
    ensures
        m.report_all(reports).text == m.text,
        m.report_all(reports).spans == m.spans,
        m.report_all(reports).failures.len() >= m.failures.len() + reports.len(),
        m.report_all(reports).failures.take(m.failures.len() as int) == m.failures,
        m.wf() ==> m.report_all(reports).wf(),
    decreases reports.len(),
{
    if reports.len() > 0 {
        lemma_report_all_keeps_text(m, reports.drop_last());
        let mid = m.report_all(reports.drop_last());
        let after = m.report_all(reports);
        assert(after.failures.take(mid.failures.len() as int).take(m.failures.len() as int)
            == after.failures.take(m.failures.len() as int));
    }
}

/// Writing `a + b` is writing `a` and then `b`.
pub proof fn lemma_push_leaves_concat<L>(m: SourceModel<L>, a: Seq<Leaf<L>>, b: Seq<Leaf<L>>)
    ensures
        m.push_leaves(a + b) == m.push_leaves(a).push_leaves(b),
    decreases b.len(),
{
    if b.len() > 0 {
        assert((a + b).drop_last() == a + b.drop_last());
        lemma_push_leaves_concat(m, a, b.drop_last());
    }
}

/// Writing a single leaf is writing its text.
pub proof fn lemma_push_leaves_one<L>(m: SourceModel<L>, leaf: Leaf<L>)
    ensures
        m.push_leaves(seq![leaf]) == m.push_text(leaf.text, leaf.location),
{
    let one = seq![leaf];
    assert(m.push_leaves(one.drop_last()) == m);
}

/// Writing a token's text keeps the state well formed, leaves every byte
/// and record written before as it was, and adds no failure.
pub proof fn lemma_push_text_extends<L>(m: SourceModel<L>, text: Seq<char>, location: L)
    requires
        m.wf(),
    ensures
        m.push_text(text, location).wf(),
        m.push_text(text, location).failures == m.failures,
        m.spans.len() <= m.push_text(text, location).spans.len(),
        m.push_text(text, location).spans.take(m.spans.len() as int) == m.spans,
        byte_len(m.text) <= byte_len(m.push_text(text, location).text),
        encode_utf8(m.push_text(text, location).text).take(byte_len(m.text) as int) == encode_utf8(
            m.text,
        ),
        text.len() > 0 ==> {
            let after = m.push_text(text, location);
            &&& after.spans.len() == m.spans.len() + 1
            &&& after.spans.last().location == location
            &&& after.spans.last().start == byte_len(m.text) + m.separator(text[0]).len()
            &&& after.spans.last().end == byte_len(after.text)
            &&& after.bytes_of(after.spans.last()) == encode_utf8(text)
        },
{
    if text.len() > 0 {
        let sep = m.separator(text[0]);
        lemma_encode_concat(m.text, sep);
        lemma_space_is_one_byte();
        lemma_encode_concat(m.text + sep, text);
        lemma_byte_len_positive(text);
    }
}

/// A rejection is never dropped: taking it in, from the grammar or from the
/// validator, leaves the text and the records as they were, keeps the
/// failures collected before, and adds at least one.
pub proof fn lemma_rejection_is_reported<L>(m: SourceModel<L>, why: RejectionView)
    ensures
        m.reject_parse(why).text == m.text,
        m.reject_parse(why).spans == m.spans,
        m.reject_parse(why).failures.len() > m.failures.len(),
        m.reject_parse(why).failures.take(m.failures.len() as int) == m.failures,
        m.reject_validation(why).text == m.text,
        m.reject_validation(why).spans == m.spans,
        m.reject_validation(why).failures.len() > m.failures.len(),
        m.reject_validation(why).failures.take(m.failures.len() as int) == m.failures,
{
    let message = chained(why.message, why.causes);
    lemma_report_all_keeps_text(m, parse_reports(message, why.labels));
    lemma_report_all_keeps_text(m, validation_reports(message, why.labels));
}

/// Every leaf that has text gets exactly one record, and the records come
/// in the order of the leaves: writing `leaves` adds as many records as there
/// are leaves with text, the record of each covers exactly the bytes of its
/// text and carries its location, and what was written before stays as it
/// was.
pub proof fn lemma_every_text_has_its_record<L>(m: SourceModel<L>, leaves: Seq<Leaf<L>>)
    requires
        m.wf(),
    ensures
        ({
            let after = m.push_leaves(leaves);
            let kept = with_text(leaves);
            &&& after.wf()
            &&& after.failures == m.failures
            &&& after.spans.len() == m.spans.len() + kept.len()
            &&& after.spans.take(m.spans.len() as int) == m.spans
            &&& byte_len(m.text) <= byte_len(after.text)
            &&& encode_utf8(after.text).take(byte_len(m.text) as int) == encode_utf8(m.text)
            &&& forall|k: int|
                0 <= k < kept.len() ==> {
                    let record = after.spans[m.spans.len() + k];
                    &&& record.location == (#[trigger] kept[k]).location
                    &&& after.bytes_of(record) == encode_utf8(kept[k].text)
                }
        }),
    decreases leaves.len(),
{
    if leaves.len() > 0 {
        let front = leaves.drop_last();
        let last = leaves.last();
        let mid = m.push_leaves(front);
        let after = m.push_leaves(leaves);
        let kept = with_text(leaves);
        let n = m.spans.len() as int;
        lemma_every_text_has_its_record(m, front);
        lemma_push_text_extends(mid, last.text, last.location);
        assert(after.spans.take(n) == m.spans);
        assert(encode_utf8(after.text).take(byte_len(m.text) as int) == encode_utf8(m.text)) by {
            assert(encode_utf8(after.text).take(byte_len(mid.text) as int).take(
                byte_len(m.text) as int,
            ) == encode_utf8(after.text).take(byte_len(m.text) as int));
        }
        assert forall|k: int| 0 <= k < kept.len() implies {
            let record = after.spans[n + k];
            &&& record.location == (#[trigger] kept[k]).location
            &&& after.bytes_of(record) == encode_utf8(kept[k].text)
        } by {
            let record = after.spans[n + k];
            if k < with_text(front).len() {
                assert(after.bytes_of(record) == encode_utf8(after.text).take(
                    byte_len(mid.text) as int,
                ).subrange(record.start, record.end));
            }
        }
    }
}

/// The text that comes out depends on the texts of the leaves alone, not
/// on their locations nor on anything else in the state: the same texts
/// written after the same text give the same text.
pub proof fn lemma_same_texts_same_output<L, M>(
    a: SourceModel<L>,
    b: SourceModel<M>,
    x: Seq<Leaf<L>>,
    y: Seq<Leaf<M>>,
)
    requires
        a.text == b.text,
        x.len() == y.len(),
        forall|i: int| 0 <= i < x.len() ==> (#[trigger] x[i]).text == y[i].text,
    ensures
        a.push_leaves(x).text == b.push_leaves(y).text,
    decreases x.len(),
{
    if x.len() > 0 {
        let (p, q) = (x.drop_last(), y.drop_last());
        assert forall|i: int| 0 <= i < p.len() implies (#[trigger] p[i]).text == q[i].text by {
            assert(x[i].text == y[i].text);
        }
        lemma_same_texts_same_output(a, b, p, q);
    }
}

} // verus!
