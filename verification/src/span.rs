//! The span index: an append-only table that remembers which stretch of the
//! synthesized text each token produced, and finds the tokens behind a byte
//! range of that text.

use vstd::prelude::*;

verus! {

/// A half-open range `[start, end)` of byte offsets into the synthesized text.
#[derive(Clone, Copy, Debug, PartialEq, Eq, Structural)]
pub struct ByteRange {
    pub start: usize,
    pub end: usize,
}

/// Where one token's text landed in the synthesized text, and the place in
/// the host's input that the token came from.
#[derive(Debug)]
pub struct SpanRecord<L> {
    pub start: usize,
    pub end: usize,
    pub location: L,
}

/// What a `SpanRecord` stands for in contracts.
pub struct SpanView<L> {
    pub start: int,
    pub end: int,
    pub location: L,
}

impl<L> View for SpanRecord<L> {
    type V = SpanView<L>;

    open spec fn view(&self) -> SpanView<L> {
        SpanView { start: self.start as int, end: self.end as int, location: self.location }
    }
}

/// No record is empty, and each begins at or after the end of the one before.
pub open spec fn ordered<L>(spans: Seq<SpanView<L>>) -> bool {
    &&& forall|i: int| 0 <= i < spans.len() ==> 0 <= (#[trigger] spans[i]).start < spans[i].end
    &&& forall|i: int, j: int|
        0 <= i < j < spans.len() ==> (#[trigger] spans[i]).end <= (#[trigger] spans[j]).start
}

/// The offset `q` lies in `[start, end)` of the record.
pub open spec fn holds_start<L>(r: SpanView<L>, q: int) -> bool {
    r.start <= q < r.end
}

/// The offset `q` lies in `(start, end]` of the record.
pub open spec fn holds_end<L>(r: SpanView<L>, q: int) -> bool {
    r.start < q <= r.end
}

/// How many records end at or before `q`.
pub open spec fn ended_by<L>(spans: Seq<SpanView<L>>, q: int) -> nat
    decreases spans.len(),
{
    if spans.len() == 0 {
        0
    } else {
        ended_by(spans.drop_last(), q) + if spans.last().end <= q {
            1nat
        } else {
            0nat
        }
    }
}

/// The first record of the answer to a query that starts at `s`: the record
/// that holds `s` in `[start, end)`; where none does, the nearest record
/// before `s`; where none lies before `s`, the first record.
///
/// In an ordered table the records that end at or before `s` come first, so
/// the record after them is the only one that can hold `s`.
pub open spec fn lower_index<L>(spans: Seq<SpanView<L>>, s: int) -> int {
    let before = ended_by(spans, s) as int;
    if before < spans.len() && spans[before].start <= s {
        before
    } else if before > 0 {
        before - 1
    } else {
        0
    }
}

/// The last record of the answer to a query that ends at `e`: the record
/// that holds `e` in `(start, end]`; where none does, the record that follows
/// the nearest record before `e`, so that a range that ends in the gap
/// between two tokens takes in the token after the gap. Where nothing
/// follows, this is the length of the table.
///
/// In an ordered table both are the record that comes after all records
/// that end before `e`.
pub open spec fn upper_index<L>(spans: Seq<SpanView<L>>, e: int) -> int {
    ended_by(spans, e - 1) as int
}

/// One past the last record of the answer to a query that ends at `e`.
pub open spec fn upper_limit<L>(spans: Seq<SpanView<L>>, e: int) -> int {
    if upper_index(spans, e) < spans.len() {
        upper_index(spans, e) + 1
    } else {
        spans.len() as int
    }
}

/// The locations that the byte range `[s, e)` resolves to: those of the
/// records from `lower_index` to `upper_index`, both included, in table order.
pub open spec fn resolved<L>(spans: Seq<SpanView<L>>, s: int, e: int) -> Seq<L> {
    let lo = lower_index(spans, s);
    let hi = upper_limit(spans, e);
    if lo < hi {
        Seq::new((hi - lo) as nat, |k: int| spans[lo + k].location)
    } else {
        Seq::empty()
    }
}

/// In a table split at `k` into records that end at or before `q` and
/// records that end after it, `k` is the number of the former.
pub proof fn lemma_ended_by_at_split<L>(spans: Seq<SpanView<L>>, q: int, k: int)
    requires
        0 <= k <= spans.len(),
        forall|i: int| 0 <= i < k ==> (#[trigger] spans[i]).end <= q,
        forall|i: int| k <= i < spans.len() ==> q < (#[trigger] spans[i]).end,
    ensures
        ended_by(spans, q) == k,
    decreases spans.len(),
{
    if spans.len() > 0 {
        let front = spans.drop_last();
        if k == spans.len() {
            lemma_ended_by_at_split(front, q, k - 1);
        } else {
            lemma_ended_by_at_split(front, q, k);
        }
    }
}

/// In an ordered table the records that end at or before `q` come first.
pub proof fn lemma_ended_by_splits<L>(spans: Seq<SpanView<L>>, q: int)
    requires
        ordered(spans),
    ensures
        ended_by(spans, q) <= spans.len(),
        forall|i: int| 0 <= i < ended_by(spans, q) ==> (#[trigger] spans[i]).end <= q,
        forall|i: int| ended_by(spans, q) <= i < spans.len() ==> q < (#[trigger] spans[i]).end,
    decreases spans.len(),
{
    if spans.len() > 0 {
        let front = spans.drop_last();
        assert(forall|i: int| 0 <= i < front.len() ==> front[i] == spans[i]);
        lemma_ended_by_splits(front, q);
        let n = spans.len() - 1;
        if spans[n].end <= q {
            assert forall|i: int| 0 <= i < n implies (#[trigger] spans[i]).end <= q by {
                assert(spans[i].end <= spans[n].start);
            }
            lemma_ended_by_at_split(front, q, n);
        }
    }
}

/// The record shares at least one byte with `[s, e)`, or holds the point
/// `s` inside it where the range is empty.
pub open spec fn overlaps<L>(r: SpanView<L>, s: int, e: int) -> bool {
    r.start < e && s < r.end
}

/// Record `k` is the nearest record that lies wholly before the offset `s`.
pub open spec fn nearest_before<L>(spans: Seq<SpanView<L>>, k: int, s: int) -> bool {
    &&& spans[k].end <= s
    &&& forall|j: int| k < j < spans.len() ==> s < (#[trigger] spans[j]).start
}

/// Record `k` is the nearest record that lies wholly at or after the offset `e`.
pub open spec fn nearest_after<L>(spans: Seq<SpanView<L>>, k: int, e: int) -> bool {
    &&& e <= spans[k].start
    &&& forall|j: int| 0 <= j < k ==> (#[trigger] spans[j]).end < e
}

/// Two records touch at the offset `q`: one ends there and the next begins
/// there.
pub open spec fn on_seam<L>(spans: Seq<SpanView<L>>, q: int) -> bool {
    exists|i: int, j: int|
        0 <= i && j == i + 1 && j < spans.len() && (#[trigger] spans[i]).end == q && (
        #[trigger] spans[j]).start == q
}

/// What `lower_index` picks: the record that holds `s` in `[start, end)`
/// where there is one; else the nearest record before `s`; else, where no
/// record lies before `s`, the first record.
pub proof fn lemma_lower_index<L>(spans: Seq<SpanView<L>>, s: int)
    requires
        ordered(spans),
        spans.len() > 0,
    ensures
        0 <= lower_index(spans, s) < spans.len(),
        (exists|i: int| 0 <= i < spans.len() && holds_start(#[trigger] spans[i], s))
            ==> holds_start(spans[lower_index(spans, s)], s),
        !(exists|i: int| 0 <= i < spans.len() && holds_start(#[trigger] spans[i], s)) ==> {
            ||| nearest_before(spans, lower_index(spans, s), s)
            ||| (lower_index(spans, s) == 0 && forall|i: int|
                0 <= i < spans.len() ==> s < (#[trigger] spans[i]).start)
        },
{
    lemma_ended_by_splits(spans, s);
    let before = ended_by(spans, s) as int;
    // only the first record that ends after `s` can hold `s`
    assert forall|i: int| 0 <= i < spans.len() && holds_start(#[trigger] spans[i], s) implies i
        == before by {
        if before < i {
            assert(spans[before].end <= spans[i].start);
        }
    }
    if !(before < spans.len() && spans[before].start <= s) {
        assert forall|j: int| before <= j < spans.len() implies s < (#[trigger] spans[j]).start by {
            if before < j {
                assert(spans[before].end <= spans[j].start);
            }
        }
    }
}

/// What `upper_index` picks: the record that holds `e` in `(start, end]`
/// where there is one; else the nearest record at or after `e`; else, where
/// every record ends before `e`, the length of the table.
pub proof fn lemma_upper_index<L>(spans: Seq<SpanView<L>>, e: int)
    requires
        ordered(spans),
    ensures
        0 <= upper_index(spans, e) <= spans.len(),
        (exists|i: int| 0 <= i < spans.len() && holds_end(#[trigger] spans[i], e)) ==> upper_index(
            spans,
            e,
        ) < spans.len() && holds_end(spans[upper_index(spans, e)], e),
        !(exists|i: int| 0 <= i < spans.len() && holds_end(#[trigger] spans[i], e)) ==> {
            if upper_index(spans, e) < spans.len() {
                nearest_after(spans, upper_index(spans, e), e)
            } else {
                forall|i: int| 0 <= i < spans.len() ==> (#[trigger] spans[i]).end < e
            }
        },
{
    lemma_ended_by_splits(spans, e - 1);
    let before = upper_index(spans, e);
    // only the first record that ends at or after `e` can hold `e`
    assert forall|i: int| 0 <= i < spans.len() && holds_end(#[trigger] spans[i], e) implies i
        == before by {
        if before < i {
            assert(spans[before].end <= spans[i].start);
        }
    }
}

/// A range with `s <= e` resolves to nothing in two cases only: the table
/// is empty, or the range is empty and sits on the seam of two records that
/// touch.
pub proof fn lemma_resolved_empty_iff<L>(spans: Seq<SpanView<L>>, s: int, e: int)
    requires
        ordered(spans),
        s <= e,
    ensures
        resolved(spans, s, e).len() == 0 <==> spans.len() == 0 || (s == e && on_seam(spans, s)),
{
    lemma_ended_by_splits(spans, s);
    lemma_ended_by_splits(spans, e - 1);
    let c = ended_by(spans, s) as int;
    let p = ended_by(spans, e - 1) as int;
    let lo = lower_index(spans, s);
    let hi = upper_limit(spans, e);
    if spans.len() > 0 {
        // at most one record ends exactly at `s`
        assert(c - 1 <= p) by {
            if p < c - 1 {
                assert(spans[p].end <= spans[p + 1].start);
            }
        }
        if s == e && on_seam(spans, s) {
            let (i, j) = choose|i: int, j: int|
                0 <= i && j == i + 1 && j < spans.len() && (#[trigger] spans[i]).end == s && (
                #[trigger] spans[j]).start == s;
            // record `j` holds `s`, and record `i` is the last that ends before
            // or at `s`, so the answer would begin after its end
            assert(c == j && p == i);
        } else if lo >= hi {
            // nothing comes back, so the lower record is the one that holds `s`
            // and the record before it ends at `s`
            assert(s == e && lo == c && p == c - 1);
            assert(spans[p].end <= spans[c].start);
        }
    }
}

/// A range with `s <= e` resolves to at least one location whenever the
/// table holds a record, unless the range is empty and sits on the seam of
/// two records that touch.
pub proof fn lemma_resolved_nonempty<L>(spans: Seq<SpanView<L>>, s: int, e: int)
    requires
        ordered(spans),
        spans.len() > 0,
        s <= e,
        !(s == e && on_seam(spans, s)),
    ensures
        resolved(spans, s, e).len() > 0,
{
    lemma_resolved_empty_iff(spans, s, e);
}

/// Every record that a range with `s <= e` resolves to shares bytes with the
/// range, or is the nearest record before its start, or is the nearest
/// record at or after its end.
pub proof fn lemma_resolved_records_are_near<L>(spans: Seq<SpanView<L>>, s: int, e: int, k: int)
    requires
        ordered(spans),
        s <= e,
        lower_index(spans, s) <= k < upper_limit(spans, e),
    ensures
        0 <= k < spans.len(),
        resolved(spans, s, e)[k - lower_index(spans, s)] == spans[k].location,
        overlaps(spans[k], s, e) || nearest_before(spans, k, s) || nearest_after(spans, k, e),
{
    lemma_ended_by_splits(spans, s);
    lemma_ended_by_splits(spans, e - 1);
    lemma_lower_index(spans, s);
    lemma_upper_index(spans, e);
}

/// The table of span records, in the order in which the text was written.
pub struct SpanIndex<L> {
    records: Vec<SpanRecord<L>>,
}

impl<L> View for SpanIndex<L> {
    type V = Seq<SpanView<L>>;

    closed spec fn view(&self) -> Seq<SpanView<L>> {
        Seq::new(self.records@.len(), |i: int| self.records@[i]@)
    }
}

impl<L> SpanIndex<L> {
    /// The table keeps its records ordered.
    #[verifier::type_invariant]
    spec fn inv(self) -> bool {
        ordered(self@)
    }
}

impl<L: Copy> SpanIndex<L> {
    /// An empty table.
    pub fn new() -> (index: Self)
        ensures
            index@ == Seq::<SpanView<L>>::empty(),
    {
        let index = SpanIndex { records: Vec::new() };
        assert(index@ == Seq::<SpanView<L>>::empty());
        index
    }

    /// The number of records.
    pub fn len(&self) -> (n: usize)
        ensures
            n == self@.len(),
            ordered(self@),
    {
        proof {
            use_type_invariant(self);
        }
        self.records.len()
    }

    /// The record at position `i`, if there is one.
    pub fn get(&self, i: usize) -> (record: Option<&SpanRecord<L>>)
        ensures
            match record {
                Some(r) => i < self@.len() && r@ == self@[i as int],
                None => i >= self@.len(),
            },
    {
        if i < self.records.len() {
            Some(&self.records[i])
        } else {
            None
        }
    }

    /// Where the last record ends, or 0 for an empty table.
    pub fn end(&self) -> (end: usize)
        ensures
            end == if self@.len() == 0 {
                0
            } else {
                self@.last().end
            },
    {
        let n = self.records.len();
        if n == 0 {
            0
        } else {
            self.records[n - 1].end
        }
    }

    /// Appends the record `[start, end)` for `location`, unless it is empty
    /// or begins before the end of the last record; says whether it did.
    pub fn push(&mut self, start: usize, end: usize, location: L) -> (accepted: bool)
        ensures
            ordered(final(self)@),
            accepted == (start < end && (old(self)@.len() == 0 || old(self)@.last().end <= start)),
            accepted ==> final(self)@ == old(self)@.push(
                SpanView { start: start as int, end: end as int, location },
            ),
            !accepted ==> final(self)@ == old(self)@,
    {
        proof {
            use_type_invariant(&*self);
        }
        if start >= end || self.end() > start {
            return false;
        }
        let ghost before = self@;
        proof {
            let added = SpanView { start: start as int, end: end as int, location };
            let after = before.push(added);
            assert forall|i: int, j: int| 0 <= i < j < after.len() implies (#[trigger] after[i]).end
                <= (#[trigger] after[j]).start by {
                if j == before.len() {
                    if i < before.len() - 1 {
                        assert(before[i].end <= before[before.len() - 1].start);
                    }
                } else {
                    assert(before[i].end <= before[j].start);
                }
            }
            assert(ordered(after));
            let pushed = self.records@.push(SpanRecord { start, end, location });
            assert(Seq::new(pushed.len(), |i: int| pushed[i]@) == after);
        }
        let mut records = Vec::new();
        std::mem::swap(&mut self.records, &mut records);
        records.push(SpanRecord { start, end, location });
        self.records = records;
        true
    }

    /// Looks for the record that holds `q` in `[start, end)`. `Err` carries
    /// the number of records that end at or before `q`.
    fn search_start(&self, q: usize) -> (found: Result<usize, usize>)
        ensures
            match found {
                Ok(i) => i < self@.len() && holds_start(self@[i as int], q as int),
                Err(k) => k <= self@.len() && (k < self@.len() ==> q < self@[k as int].start),
            },
            ended_by(self@, q as int) == match found {
                Ok(i) => i,
                Err(k) => k,
            },
    {
        proof {
            use_type_invariant(self);
        }
        let mut lo: usize = 0;
        let mut hi: usize = self.records.len();
        while lo < hi
            invariant
                ordered(self@),
                lo <= hi <= self@.len(),
                self@.len() == self.records@.len(),
                forall|i: int| 0 <= i < lo ==> (#[trigger] self@[i]).end <= q,
                forall|i: int| hi <= i < self@.len() ==> q < (#[trigger] self@[i]).start,
            decreases hi - lo,
        {
            let mid: usize = lo + (hi - lo) / 2;
            let record = &self.records[mid];
            assert(record@ == self@[mid as int]);
            if q < record.start {
                assert forall|i: int| mid <= i < self@.len() implies q < (
                #[trigger] self@[i]).start by {
                    if mid < i {
                        assert(self@[mid as int].end <= self@[i].start);
                    }
                }
                hi = mid;
            } else if q < record.end {
                proof {
                    assert forall|i: int| 0 <= i < mid implies (#[trigger] self@[i]).end <= q by {
                        assert(self@[i].end <= self@[mid as int].start);
                    }
                    assert forall|i: int| mid <= i < self@.len() implies q < (
                    #[trigger] self@[i]).end by {
                        if mid < i {
                            assert(self@[mid as int].end <= self@[i].start);
                        }
                    }
                    lemma_ended_by_at_split(self@, q as int, mid as int);
                }
                return Ok(mid);
            } else {
                assert forall|i: int| 0 <= i < mid + 1 implies (#[trigger] self@[i]).end <= q by {
                    if i < mid {
                        assert(self@[i].end <= self@[mid as int].start);
                    }
                }
                lo = mid + 1;
            }
        }
        proof {
            lemma_ended_by_at_split(self@, q as int, lo as int);
        }
        Err(lo)
    }

    /// Looks for the record that holds `q` in `(start, end]`. `Err` carries
    /// the number of records that end before `q`.
    fn search_end(&self, q: usize) -> (found: Result<usize, usize>)
        ensures
            match found {
                Ok(i) => i < self@.len() && holds_end(self@[i as int], q as int),
                Err(k) => k <= self@.len() && (k < self@.len() ==> q <= self@[k as int].start),
            },
            ended_by(self@, q - 1) == match found {
                Ok(i) => i,
                Err(k) => k,
            },
    {
        proof {
            use_type_invariant(self);
        }
        let mut lo: usize = 0;
        let mut hi: usize = self.records.len();
        while lo < hi
            invariant
                ordered(self@),
                lo <= hi <= self@.len(),
                self@.len() == self.records@.len(),
                forall|i: int| 0 <= i < lo ==> (#[trigger] self@[i]).end < q,
                forall|i: int| hi <= i < self@.len() ==> q <= (#[trigger] self@[i]).start,
            decreases hi - lo,
        {
            let mid: usize = lo + (hi - lo) / 2;
            let record = &self.records[mid];
            assert(record@ == self@[mid as int]);
            if q <= record.start {
                assert forall|i: int| mid <= i < self@.len() implies q <= (
                #[trigger] self@[i]).start by {
                    if mid < i {
                        assert(self@[mid as int].end <= self@[i].start);
                    }
                }
                hi = mid;
            } else if q <= record.end {
                proof {
                    assert forall|i: int| 0 <= i < mid implies (#[trigger] self@[i]).end <= q
                        - 1 by {
                        assert(self@[i].end <= self@[mid as int].start);
                    }
                    assert forall|i: int| mid <= i < self@.len() implies q - 1 < (
                    #[trigger] self@[i]).end by {
                        if mid < i {
                            assert(self@[mid as int].end <= self@[i].start);
                        }
                    }
                    lemma_ended_by_at_split(self@, q - 1, mid as int);
                }
                return Ok(mid);
            } else {
                assert forall|i: int| 0 <= i < mid + 1 implies (#[trigger] self@[i]).end < q by {
                    if i < mid {
                        assert(self@[i].end <= self@[mid as int].start);
                    }
                }
                lo = mid + 1;
            }
        }
        proof {
            lemma_ended_by_at_split(self@, q - 1, lo as int);
        }
        Err(lo)
    }

    /// The locations of the tokens behind the byte range `[start, end)`.
    ///
    /// The answer begins with the token that holds `start`, or else with the
    /// nearest token before it, and ends with the token that holds `end`, or
    /// else with the token after the gap that `end` falls in.
    pub fn resolve(&self, start: usize, end: usize) -> (locations: Vec<L>)
        ensures
            locations@ == resolved(self@, start as int, end as int),
            ordered(self@),
    {
        proof {
            use_type_invariant(self);
        }
        let n = self.records.len();
        let lo: usize = match self.search_start(start) {
            Ok(i) => i,
            Err(k) => if k > 0 {
                k - 1
            } else {
                0
            },
        };
        let last: usize = match self.search_end(end) {
            Ok(i) => i,
            Err(k) => k,
        };
        let hi: usize = if last < n {
            last + 1
        } else {
            n
        };
        assert(lo == lower_index(self@, start as int));
        assert(hi == upper_limit(self@, end as int));
        let mut locations: Vec<L> = Vec::new();
        let mut i: usize = lo;
        while i < hi
            invariant
                hi <= n == self.records@.len() == self@.len(),
                lo <= i,
                lo < hi ==> i <= hi,
                locations@.len() == if lo < hi {
                    i - lo
                } else {
                    0
                },
                forall|k: int|
                    0 <= k < locations@.len() ==> locations@[k] == self@[lo + k].location,
            decreases hi - i,
        {
            locations.push(self.records[i].location);
            i += 1;
        }
        assert(locations@ =~= resolved(self@, start as int, end as int));
        locations
    }
}

} // verus!
