use wgsl_inline::source::Sourcecode;
use wgsl_inline::span::SpanIndex;
use wgsl_inline::token::Token;

fn leaf(text: &str, location: u32) -> Token<u32> {
    Token::Leaf { text: text.to_string(), location }
}

/// Records `[0,2) [2,4) [4,5)` for locations 1, 2, 3 and text `ab::c`.
fn touching() -> Sourcecode<u32> {
    let mut source = Sourcecode::new();
    source.append_tokens(&vec![leaf("ab", 1), leaf("::", 2), leaf("c", 3)]);
    assert_eq!(source.text(), "ab::c");
    source
}

/// Records `[0,3) [4,7) [8,11)` for locations 1, 2, 3 and text `foo bar baz`.
fn spaced() -> Sourcecode<u32> {
    let mut source = Sourcecode::new();
    source.append_tokens(&vec![leaf("foo", 1), leaf("bar", 2), leaf("baz", 3)]);
    assert_eq!(source.text(), "foo bar baz");
    source
}

#[test]
fn range_inside_the_third_record_resolves_to_it_alone() {
    assert_eq!(touching().get_spans_within(4, 5), vec![3]);
}

#[test]
fn range_strictly_inside_one_record() {
    let mut source: Sourcecode<u32> = Sourcecode::new();
    source.append_tokens(&vec![leaf("a", 1), leaf("b", 2), leaf("third", 3)]);
    assert_eq!(source.text(), "a b third");
    assert_eq!(source.get_spans_within(5, 6), vec![3]);
}

#[test]
fn range_over_several_records_gives_them_in_order() {
    assert_eq!(touching().get_spans_within(0, 5), vec![1, 2, 3]);
    assert_eq!(touching().get_spans_within(1, 3), vec![1, 2]);
    assert_eq!(spaced().get_spans_within(5, 9), vec![2, 3]);
}

#[test]
fn end_on_a_token_boundary_includes_that_token() {
    // `end` = 2 lies in (0, 2] of the first record
    assert_eq!(touching().get_spans_within(0, 2), vec![1]);
    assert_eq!(spaced().get_spans_within(0, 3), vec![1]);
}

#[test]
fn start_on_a_token_boundary_includes_that_token() {
    // `start` = 2 lies in [2, 4) of the second record
    assert_eq!(touching().get_spans_within(2, 4), vec![2]);
    assert_eq!(spaced().get_spans_within(4, 7), vec![2]);
}

#[test]
fn start_in_a_gap_takes_the_token_before() {
    // byte 3 is the space after `foo`
    assert_eq!(spaced().get_spans_within(3, 6), vec![1, 2]);
}

#[test]
fn end_in_a_gap_takes_the_token_after() {
    // a range that ends on the space before `bar`
    assert_eq!(spaced().get_spans_within(1, 4), vec![1, 2]);
}

#[test]
fn empty_range_in_a_gap_takes_both_neighbours() {
    let source = spaced();
    // where two tokens are a space apart, the only offset strictly between
    // them is the end of the first: it is held by the first as an end
    assert_eq!(source.get_spans_within(3, 3), vec![1]);
    // the start of the next token, taken as an end, is in the gap
    assert_eq!(source.get_spans_within(3, 4), vec![1, 2]);
}

#[test]
fn empty_range_inside_a_record_resolves_to_it() {
    assert_eq!(spaced().get_spans_within(5, 5), vec![2]);
}

#[test]
fn empty_range_at_the_very_start() {
    assert_eq!(spaced().get_spans_within(0, 0), vec![1]);
}

#[test]
fn empty_range_on_the_seam_of_touching_records_resolves_to_nothing() {
    assert_eq!(touching().get_spans_within(2, 2), Vec::<u32>::new());
    assert_eq!(touching().get_spans_within(4, 4), Vec::<u32>::new());
}

#[test]
fn range_past_the_end_falls_back_to_the_last_token() {
    assert_eq!(spaced().get_spans_within(20, 30), vec![3]);
    assert_eq!(touching().get_spans_within(5, 5), vec![3]);
}

#[test]
fn whole_buffer_and_more_gives_every_token() {
    assert_eq!(spaced().get_spans_within(0, 11), vec![1, 2, 3]);
    assert_eq!(spaced().get_spans_within(0, usize::MAX), vec![1, 2, 3]);
}

#[test]
fn empty_table_resolves_to_nothing() {
    let source: Sourcecode<u32> = Sourcecode::new();
    assert_eq!(source.get_spans_within(0, 0), Vec::<u32>::new());
    assert_eq!(source.get_spans_within(0, 10), Vec::<u32>::new());
}

#[test]
fn reversed_range_does_not_panic() {
    assert_eq!(spaced().get_spans_within(9, 1), Vec::<u32>::new());
}

#[test]
fn every_in_bounds_range_resolves_unless_it_is_an_empty_seam() {
    for source in [touching(), spaced()] {
        let index = source.spans();
        let len = source.text().len();
        for s in 0..=len {
            for e in s..=len {
                let got = source.get_spans_within(s, e);
                let mut seam = false;
                for i in 1..index.len() {
                    if index.get(i - 1).unwrap().end == s && index.get(i).unwrap().start == s {
                        seam = true;
                    }
                }
                if s == e && seam {
                    assert!(got.is_empty(), "[{}, {})", s, e);
                } else {
                    assert!(!got.is_empty(), "[{}, {})", s, e);
                }
            }
        }
    }
}

#[test]
fn index_push_keeps_the_order() {
    let mut index: SpanIndex<char> = SpanIndex::new();
    assert_eq!(index.end(), 0);
    assert!(index.push(0, 2, 'a'));
    assert!(!index.push(3, 3, 'b'), "an empty record is refused");
    assert!(!index.push(5, 4, 'b'), "a reversed record is refused");
    assert!(!index.push(1, 4, 'b'), "an overlapping record is refused");
    assert!(index.push(2, 4, 'b'), "a record may touch the one before");
    assert!(index.push(9, 10, 'c'));
    assert_eq!(index.len(), 3);
    assert_eq!(index.end(), 10);
    let second = index.get(1).expect("three records");
    assert_eq!((second.start, second.end, second.location), (2, 4, 'b'));
    assert!(index.get(3).is_none());
    assert_eq!(index.resolve(3, 9), vec!['b', 'c']);
    assert_eq!(index.resolve(5, 6), vec!['b', 'c']);
}
