//! Failures reported against the synthesized text, turned into failures
//! anchored at the host's own tokens.

use vstd::prelude::*;
use vstd::string::StringExecFns;
use crate::span::{resolved, ByteRange, SpanIndex, SpanView};

verus! {

/// One failure for the host to report: at `location`, or, where there is
/// none, wherever the host reports failures that have no place.
#[derive(Debug)]
pub struct DeferredFailure<L> {
    pub message: String,
    pub location: Option<L>,
}

/// What a `DeferredFailure` stands for in contracts.
pub struct Failure<L> {
    pub message: Seq<char>,
    pub location: Option<L>,
}

impl<L> View for DeferredFailure<L> {
    type V = Failure<L>;

    open spec fn view(&self) -> Failure<L> {
        Failure { message: self.message@, location: self.location }
    }
}

/// The views of a list of failures.
pub open spec fn failures_of<L>(failures: Seq<DeferredFailure<L>>) -> Seq<Failure<L>> {
    Seq::new(failures.len(), |i: int| failures[i]@)
}

/// A label on a stretch of the synthesized text: what an outside grammar or
/// validator says about the range, which may be missing.
#[derive(Debug)]
pub struct Label {
    pub range: Option<ByteRange>,
    pub text: String,
}

/// What a `Label` stands for in contracts.
pub struct LabelView {
    pub range: Option<ByteRange>,
    pub text: Seq<char>,
}

impl View for Label {
    type V = LabelView;

    open spec fn view(&self) -> LabelView {
        LabelView { range: self.range, text: self.text@ }
    }
}

/// The views of a list of labels.
pub open spec fn labels_of(labels: Seq<Label>) -> Seq<LabelView> {
    Seq::new(labels.len(), |i: int| labels[i]@)
}

/// The views of a list of strings.
pub open spec fn texts_of(texts: Seq<String>) -> Seq<Seq<char>> {
    Seq::new(texts.len(), |i: int| texts[i]@)
}

/// Why an outside grammar or validator turned its input down: its own
/// description, the descriptions of the causes behind it, outermost first,
/// and the labels it put on stretches of the synthesized text.
#[derive(Debug)]
pub struct Rejection {
    pub message: String,
    pub causes: Vec<String>,
    pub labels: Vec<Label>,
}

/// What a `Rejection` stands for in contracts.
pub struct RejectionView {
    pub message: Seq<char>,
    pub causes: Seq<Seq<char>>,
    pub labels: Seq<LabelView>,
}

impl View for Rejection {
    type V = RejectionView;

    open spec fn view(&self) -> RejectionView {
        RejectionView {
            message: self.message@,
            causes: texts_of(self.causes@),
            labels: labels_of(self.labels@),
        }
    }
}

/// The locations that a failure with the given range is anchored at: those
/// that the range resolves to, and none where there is no range.
pub open spec fn anchors<L>(spans: Seq<SpanView<L>>, range: Option<ByteRange>) -> Seq<L> {
    match range {
        Some(r) => resolved(spans, r.start as int, r.end as int),
        None => Seq::empty(),
    }
}

/// The failures that one report becomes: one for each anchor, all with the
/// same message, or a single failure without a location where there is no
/// anchor.
pub open spec fn reconciled<L>(
    spans: Seq<SpanView<L>>,
    message: Seq<char>,
    range: Option<ByteRange>,
) -> Seq<Failure<L>> {
    let at = anchors(spans, range);
    if at.len() == 0 {
        seq![Failure { message, location: None }]
    } else {
        Seq::new(at.len(), |i: int| Failure { message, location: Some(at[i]) })
    }
}

/// No report is dropped: it becomes at least one failure, every failure
/// made of it carries its message, and a failure without a location is made
/// exactly where the report has no range or its range resolves to nothing.
pub proof fn lemma_reconciled_never_empty<L>(
    spans: Seq<SpanView<L>>,
    message: Seq<char>,
    range: Option<ByteRange>,
)
    ensures
        reconciled(spans, message, range).len() >= 1,
        reconciled(spans, message, range).len() == if anchors(spans, range).len() == 0 {
            1
        } else {
            anchors(spans, range).len()
        },
        forall|i: int|
            0 <= i < reconciled(spans, message, range).len() ==> (#[trigger] reconciled(
                spans,
                message,
                range,
            )[i]).message == message,
        forall|i: int|
            0 <= i < reconciled(spans, message, range).len() ==> ((#[trigger] reconciled(
                spans,
                message,
                range,
            )[i]).location is None <==> anchors(spans, range).len() == 0),
{
}

/// `primary: cause: cause: ...`, the causes in the order given.
pub open spec fn chained(primary: Seq<char>, causes: Seq<Seq<char>>) -> Seq<char>
    decreases causes.len(),
{
    if causes.len() == 0 {
        primary
    } else {
        chained(primary, causes.drop_last()) + seq![':', ' '] + causes.last()
    }
}

/// `at label: message`.
pub open spec fn labelled(label: Seq<char>, message: Seq<char>) -> Seq<char> {
    seq!['a', 't', ' '] + label + seq![':', ' '] + message
}

/// `message: detail`.
pub open spec fn detailed(message: Seq<char>, detail: Seq<char>) -> Seq<char> {
    message + seq![':', ' '] + detail
}

/// Joins an error's own description and those of its causes, outermost
/// first, into one message.
pub fn chain_message(primary: &str, causes: &Vec<String>) -> (message: String)
    ensures
        message@ == chained(primary@, texts_of(causes@)),
{
    let mut message = String::from_str(primary);
    let mut i: usize = 0;
    while i < causes.len()
        invariant
            i <= causes.len(),
            message@ == chained(primary@, texts_of(causes@).take(i as int)),
        decreases causes.len() - i,
    {
        proof {
            reveal_strlit(": ");
            let done = texts_of(causes@).take(i + 1);
            assert(done.drop_last() == texts_of(causes@).take(i as int));
        }
        message.append(": ");
        message.append(causes[i].as_str());
        i += 1;
    }
    assert(texts_of(causes@).take(i as int) == texts_of(causes@));
    message
}

/// The message for a failure that a label points at.
pub fn label_message(label: &str, message: &str) -> (text: String)
    ensures
        text@ == labelled(label@, message@),
{
    proof {
        reveal_strlit("at ");
        reveal_strlit(": ");
    }
    let mut text = String::from_str("at ");
    text.append(label);
    text.append(": ");
    text.append(message);
    text
}

/// The message for a failure that comes with a detail about one place.
pub fn detail_message(message: &str, detail: &str) -> (text: String)
    ensures
        text@ == detailed(message@, detail@),
{
    proof {
        reveal_strlit(": ");
    }
    let mut text = String::from_str(message);
    text.append(": ");
    text.append(detail);
    text
}

/// Turns one report into the failures that the host is to show: one at each
/// location that `range` resolves to in `index`, or one without a location
/// where there is no range or it resolves to nothing. No report is dropped.
pub fn reconcile<L: Copy>(
    index: &SpanIndex<L>,
    message: &str,
    range: Option<ByteRange>,
) -> (failures: Vec<DeferredFailure<L>>)
    ensures
        failures_of(failures@) == reconciled(index@, message@, range),
        failures@.len() == reconciled(index@, message@, range).len(),
        failures@.len() >= 1,
{
    let at: Vec<L> = match range {
        Some(r) => index.resolve(r.start, r.end),
        None => Vec::new(),
    };
    let mut failures: Vec<DeferredFailure<L>> = Vec::new();
    if at.len() == 0 {
        failures.push(DeferredFailure { message: String::from_str(message), location: None });
        return failures;
    }
    let mut i: usize = 0;
    while i < at.len()
        invariant
            i <= at.len(),
            failures@.len() == i,
            forall|k: int|
                0 <= k < i ==> (#[trigger] failures@[k])@ == (Failure {
                    message: message@,
                    location: Some(at@[k]),
                }),
        decreases at.len() - i,
    {
        let location = Some(at[i]);
        failures.push(DeferredFailure { message: String::from_str(message), location });
        i += 1;
    }
    failures
}

} // verus!
